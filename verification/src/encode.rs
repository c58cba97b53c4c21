//! The encode engine: appends one grammar production at a time to a growable
//! byte buffer, validating structure and numeric ranges before emitting
//! anything.
//!
//! Structure is guarded twice: a stack of open-compound markers decides
//! whether a new value may start (and inserts list separators), and a
//! date/time stage decides which component of the ordered date/time chain
//! may come next.  Every method's contract states the exact bytes appended,
//! through the `*_text` functions of `grammar`.

use vstd::prelude::*;
use vstd::pervasive::VecAdditionalExecFns;

use crate::grammar::day_text;
use crate::grammar::decimal_text;
use crate::grammar::digits;
use crate::grammar::escape_bytes;
use crate::grammar::hex_bytes;
use crate::grammar::hex_digit;
use crate::grammar::hex_pair;
use crate::grammar::hour_text;
use crate::grammar::int_text;
use crate::grammar::int_text_nat;
use crate::grammar::lemma_ascii_seq_valid;
use crate::grammar::lemma_escape_bytes_valid;
use crate::grammar::minute_text;
use crate::grammar::month_text;
use crate::grammar::ms_text;
use crate::grammar::ns_text;
use crate::grammar::pad2;
use crate::grammar::pad3;
use crate::grammar::second_text;
use crate::grammar::tz_text;
use crate::grammar::us_text;
use crate::grammar::week_text;
use crate::grammar::weekday_text;
use crate::grammar::year_text;
use crate::grammar::BACKSLASH;
use crate::grammar::CLOSE_BRACKET;
use crate::grammar::COLON;
use crate::grammar::COMMA;
use crate::grammar::D0;
use crate::grammar::D9;
use crate::grammar::HYPHEN;
use crate::grammar::LC_A;
use crate::grammar::OPEN_BRACKET;
use crate::grammar::PERIOD;
use crate::grammar::PLUS;
use crate::grammar::QUOTE;
use crate::grammar::UC_B;
use crate::grammar::UC_D;
use crate::grammar::UC_F;
use crate::grammar::UC_S;
use crate::grammar::UC_T;
use crate::grammar::UC_W;
use crate::grammar::UC_Z;
use crate::grammar::TILDE;
use crate::grammar::UNDERSCORE;

verus! {

/// Every way an encode can fail: structural misuse of the compound stack
/// or of the date/time chain, and value-range violations.
#[derive(Debug, Eq, PartialEq, Structural)]
pub enum EncodeError {
    NotInByteString,
    NotInDateTime,
    NotInList,
    NotInString,
    UnclosedByteString,
    UnclosedList,
    UnclosedString,
    InvalidDecimal,
    InvalidTimestamp,
    InvalidYear,
    InvalidMonth,
    InvalidHour,
    InvalidMinute,
    InvalidDay,
    InvalidSecond,
    InvalidWeek,
    InvalidWeekday,
    InvalidNanosecond,
    InvalidMicrosecond,
    InvalidMillisecond,
    InvalidTimezoneOffset,
}

/// A marker for each compound the encoder has opened and not yet closed.
#[derive(Clone, Copy, Debug, Eq, PartialEq, Structural)]
pub enum Elem {
    String,
    ByteString,
    EmptyList,
    List,
}

/// Where the encoder stands in the ordered date/time chain.  Each
/// `append_*` component call is legal only from the stage that the chain
/// reaches just before it; anything else is a structural error.
#[derive(Clone, Copy, Debug, Eq, PartialEq, Structural)]
pub enum DateTimeStage {
    Idle,
    AfterYear,
    AfterMonth,
    AfterWeek,
    AfterDay,
    AfterHour,
    AfterMinute,
    AfterSecond,
}

/// Implemented by types that can be written to the wire format by driving
/// an [`Encoder`] through the matching append sequence.
pub trait Encode {
    fn encode_using(&self, encoder: &mut Encoder) -> Result<(), EncodeError>;

    fn encode(&self) -> Result<String, EncodeError> {
        let mut encoder = Encoder::new();
        self.encode_using(&mut encoder)?;
        encoder.into_string()
    }
}

/// What starting a new value does to the compound stack: inside an open
/// string or byte string it is illegal; as the first element of a list it
/// marks the list non-empty; as a later element it emits a `,`.
pub open spec fn spec_prepare(stack: Seq<Elem>) -> Result<(Seq<Elem>, Seq<u8>), EncodeError> {
    if stack.len() == 0 {
        Ok((stack, Seq::empty()))
    } else if stack.last() == Elem::String {
        Err(EncodeError::UnclosedString)
    } else if stack.last() == Elem::ByteString {
        Err(EncodeError::UnclosedByteString)
    } else if stack.last() == Elem::EmptyList {
        Ok((stack.update(stack.len() - 1, Elem::List), Seq::empty()))
    } else {
        Ok((stack, seq![COMMA]))
    }
}

/// The encode engine: the output buffer, the open-compound stack, and the
/// date/time chain stage.
#[derive(Debug)]
pub struct Encoder {
    stack: Vec<Elem>,
    buf: Vec<u8>,
    stage: DateTimeStage,
}

impl Encoder {
    /// The bytes emitted so far.
    pub closed spec fn out(self) -> Seq<u8> {
        self.buf@
    }

    /// The markers of the compounds opened and not yet closed, outermost
    /// first.
    pub closed spec fn spec_stack(self) -> Seq<Elem> {
        self.stack@
    }

    /// The date/time chain stage.
    pub closed spec fn spec_stage(self) -> DateTimeStage {
        self.stage
    }

    /// The output is always valid UTF-8.
    pub closed spec fn wf(self) -> bool {
        vstd::utf8::valid_utf8(self.buf@)
    }

    #[must_use]
    pub fn new() -> (r: Encoder)
        ensures
            r.wf(),
            r.out() == Seq::<u8>::empty(),
            r.spec_stack() == Seq::<Elem>::empty(),
            r.spec_stage() == DateTimeStage::Idle,
    {
        let r = Encoder { stack: Vec::new(), buf: Vec::new(), stage: DateTimeStage::Idle };
        proof {
            assert(vstd::utf8::valid_utf8(r.buf@));
        }
        r
    }

    /// Appends one ASCII byte, keeping the buffer valid UTF-8.
    fn push_b(&mut self, b: u8)
        requires
            old(self).wf(),
            b < 0x80,
        ensures
            final(self).wf(),
            final(self).out() == old(self).out() + seq![b],
            final(self).spec_stack() == old(self).spec_stack(),
            final(self).spec_stage() == old(self).spec_stage(),
            final(self).stage == old(self).stage,
            final(self).stack == old(self).stack,
    {
        proof {
            lemma_ascii_seq_valid(seq![b]);
            vstd::utf8::valid_utf8_concat(self.buf@, seq![b]);
            assert(self.buf@ + seq![b] =~= self.buf@.push(b));
        }
        self.buf.push(b);
    }

    /// Appends a value exactly two digits wide, zero padded.
    fn push_pad2(&mut self, v: u8)
        requires
            old(self).wf(),
            v <= 99,
        ensures
            final(self).wf(),
            final(self).out() == old(self).out() + pad2(v as nat),
            final(self).spec_stack() == old(self).spec_stack(),
            final(self).spec_stage() == old(self).spec_stage(),
            final(self).stage == old(self).stage,
            final(self).stack == old(self).stack,
    {
        self.push_b(D0 + v / 10);
        self.push_b(D0 + v % 10);
        proof {
            assert(final(self).out() =~= old(self).out() + pad2(v as nat));
        }
    }

    /// Appends a value exactly three digits wide, zero padded.
    fn push_pad3(&mut self, v: u16)
        requires
            old(self).wf(),
            v <= 999,
        ensures
            final(self).wf(),
            final(self).out() == old(self).out() + pad3(v as nat),
            final(self).spec_stack() == old(self).spec_stack(),
            final(self).spec_stage() == old(self).spec_stage(),
            final(self).stage == old(self).stage,
            final(self).stack == old(self).stack,
    {
        self.push_b(D0 + (v / 100) as u8);
        self.push_b(D0 + ((v / 10) % 10) as u8);
        self.push_b(D0 + (v % 10) as u8);
        proof {
            assert(final(self).out() =~= old(self).out() + pad3(v as nat));
        }
    }

    /// Appends the plain decimal digits of `n`, most significant first.
    fn push_digits(&mut self, n: u64)
        requires
            old(self).wf(),
        ensures
            final(self).wf(),
            final(self).out() == old(self).out() + digits(n as nat),
            final(self).spec_stack() == old(self).spec_stack(),
            final(self).spec_stage() == old(self).spec_stage(),
            final(self).stage == old(self).stage,
            final(self).stack == old(self).stack,
        decreases n,
    {
        if n < 10 {
            self.push_b(D0 + n as u8);
            proof {
                assert(final(self).out() =~= old(self).out() + digits(n as nat));
            }
        } else {
            self.push_digits(n / 10);
            self.push_b(D0 + (n % 10) as u8);
            proof {
                assert(final(self).out() =~= old(self).out() + digits(n as nat));
            }
        }
    }

    /// Appends the grouped digit run of a non-negative integer: `_` every
    /// three digits from the least significant end.
    fn push_int_nat(&mut self, n: u64)
        requires
            old(self).wf(),
        ensures
            final(self).wf(),
            final(self).out() == old(self).out() + int_text_nat(n as nat),
            final(self).spec_stack() == old(self).spec_stack(),
            final(self).spec_stage() == old(self).spec_stage(),
            final(self).stage == old(self).stage,
            final(self).stack == old(self).stack,
        decreases n,
    {
        if n < 1000 {
            self.push_digits(n);
            proof {
                assert(final(self).out() =~= old(self).out() + int_text_nat(n as nat));
            }
        } else {
            self.push_int_nat(n / 1000);
            self.push_b(UNDERSCORE);
            self.push_pad3((n % 1000) as u16);
            proof {
                assert(final(self).out() =~= old(self).out() + int_text_nat(n as nat));
            }
        }
    }

    /// The step shared by every value-starting method: checks the compound
    /// stack, emits a list separator when needed, and ends any date/time
    /// chain.
    fn prepare_for_new_value(&mut self) -> (r: Result<(), EncodeError>)
        requires
            old(self).wf(),
        ensures
            final(self).wf(),
            match spec_prepare(old(self).spec_stack()) {
                Ok((st, pre)) => {
                    &&& r is Ok
                    &&& final(self).spec_stack() == st
                    &&& final(self).out() == old(self).out() + pre
                    &&& final(self).spec_stage() == DateTimeStage::Idle
                },
                Err(e) => r == Err::<(), EncodeError>(e) && *final(self) == *old(self),
            },
    {
        let depth = self.stack.len();
        if depth == 0 {
            self.stage = DateTimeStage::Idle;
            proof {
                assert(self.out() =~= old(self).out() + Seq::<u8>::empty());
            }
            return Ok(());
        }
        let top = self.stack[depth - 1];
        match top {
            Elem::String => Err(EncodeError::UnclosedString),
            Elem::ByteString => Err(EncodeError::UnclosedByteString),
            Elem::EmptyList => {
                self.stack.set(depth - 1, Elem::List);
                self.stage = DateTimeStage::Idle;
                proof {
                    assert(self.out() =~= old(self).out() + Seq::<u8>::empty());
                }
                Ok(())
            },
            Elem::List => {
                self.stage = DateTimeStage::Idle;
                self.push_b(COMMA);
                Ok(())
            },
        }
    }

    /// Appends `T` for true or `F` for false.
    pub fn append_bool(&mut self, b: bool) -> (r: Result<(), EncodeError>)
        requires
            old(self).wf(),
        ensures
            final(self).wf(),
            match spec_prepare(old(self).spec_stack()) {
                Ok((st, pre)) => {
                    &&& r is Ok
                    &&& final(self).spec_stack() == st
                    &&& final(self).spec_stage() == DateTimeStage::Idle
                    &&& final(self).out() == old(self).out() + pre + seq![
                        if b {
                            UC_T
                        } else {
                            UC_F
                        },
                    ]
                },
                Err(e) => r == Err::<(), EncodeError>(e) && *final(self) == *old(self),
            },
    {
        match self.prepare_for_new_value() {
            Ok(()) => {},
            Err(e) => {
                return Err(e);
            },
        }
        self.push_b(if b {
            UC_T
        } else {
            UC_F
        });
        Ok(())
    }

    /// Opens a byte string with its `B` marker.
    pub fn open_byte_string(&mut self) -> (r: Result<(), EncodeError>)
        requires
            old(self).wf(),
        ensures
            final(self).wf(),
            match spec_prepare(old(self).spec_stack()) {
                Ok((st, pre)) => {
                    &&& r is Ok
                    &&& final(self).spec_stack() == st.push(Elem::ByteString)
                    &&& final(self).spec_stage() == DateTimeStage::Idle
                    &&& final(self).out() == old(self).out() + pre + seq![UC_B]
                },
                Err(e) => r == Err::<(), EncodeError>(e) && *final(self) == *old(self),
            },
    {
        match self.prepare_for_new_value() {
            Ok(()) => {},
            Err(e) => {
                return Err(e);
            },
        }
        self.stack.push(Elem::ByteString);
        self.push_b(UC_B);
        Ok(())
    }

    /// Appends bytes to the open byte string as lowercase hex pairs.
    pub fn append_byte_string(&mut self, bytes: &[u8]) -> (r: Result<(), EncodeError>)
        requires
            old(self).wf(),
        ensures
            final(self).wf(),
            if old(self).spec_stack().len() > 0 && old(self).spec_stack().last()
                == Elem::ByteString {
                &&& r is Ok
                &&& final(self).spec_stack() == old(self).spec_stack()
                &&& final(self).spec_stage() == old(self).spec_stage()
                &&& final(self).out() == old(self).out() + hex_bytes(bytes@)
            } else {
                r == Err::<(), EncodeError>(EncodeError::NotInByteString) && *final(self) == *old(
                    self,
                )
            },
    {
        let depth = self.stack.len();
        if !(depth > 0 && self.stack[depth - 1] == Elem::ByteString) {
            return Err(EncodeError::NotInByteString);
        }
        let n = bytes.len();
        let mut i: usize = 0;
        while i < n
            invariant
                self.wf(),
                n == bytes@.len(),
                i <= n,
                self.stack == old(self).stack,
                self.stage == old(self).stage,
                self.out() == old(self).out() + hex_bytes(bytes@.take(i as int)),
            decreases n - i,
        {
            let b = bytes[i];
            self.push_b(if b / 16 < 10 {
                D0 + b / 16
            } else {
                LC_A + b / 16 - 10
            });
            self.push_b(if b % 16 < 10 {
                D0 + b % 16
            } else {
                LC_A + b % 16 - 10
            });
            proof {
                assert(hex_bytes(bytes@.take(i + 1)) =~= hex_bytes(bytes@.take(i as int))
                    + hex_pair(b)) by {
                    lemma_hex_bytes_push(bytes@, i as int);
                }
                assert(self.out() =~= old(self).out() + hex_bytes(bytes@.take(i + 1)));
            }
            i += 1;
        }
        proof {
            assert(bytes@.take(n as int) =~= bytes@);
        }
        Ok(())
    }

    /// Closes the open byte string; its marker has no closing character.
    pub fn close_byte_string(&mut self) -> (r: Result<(), EncodeError>)
        requires
            old(self).wf(),
        ensures
            final(self).wf(),
            if old(self).spec_stack().len() > 0 && old(self).spec_stack().last()
                == Elem::ByteString {
                &&& r is Ok
                &&& final(self).spec_stack() == old(self).spec_stack().drop_last()
                &&& final(self).spec_stage() == DateTimeStage::Idle
                &&& final(self).out() == old(self).out()
            } else {
                r == Err::<(), EncodeError>(EncodeError::NotInByteString) && *final(self) == *old(
                    self,
                )
            },
    {
        let depth = self.stack.len();
        if depth > 0 && self.stack[depth - 1] == Elem::ByteString {
            self.stack.pop();
            self.stage = DateTimeStage::Idle;
            proof {
                assert(self.stack@ =~= old(self).spec_stack().drop_last());
            }
            Ok(())
        } else {
            Err(EncodeError::NotInByteString)
        }
    }

    /// Opens a list with `[`.
    pub fn open_list(&mut self) -> (r: Result<(), EncodeError>)
        requires
            old(self).wf(),
        ensures
            final(self).wf(),
            match spec_prepare(old(self).spec_stack()) {
                Ok((st, pre)) => {
                    &&& r is Ok
                    &&& final(self).spec_stack() == st.push(Elem::EmptyList)
                    &&& final(self).spec_stage() == DateTimeStage::Idle
                    &&& final(self).out() == old(self).out() + pre + seq![OPEN_BRACKET]
                },
                Err(e) => r == Err::<(), EncodeError>(e) && *final(self) == *old(self),
            },
    {
        match self.prepare_for_new_value() {
            Ok(()) => {},
            Err(e) => {
                return Err(e);
            },
        }
        self.stack.push(Elem::EmptyList);
        self.push_b(OPEN_BRACKET);
        Ok(())
    }

    /// Closes the innermost list with `]`.
    pub fn close_list(&mut self) -> (r: Result<(), EncodeError>)
        requires
            old(self).wf(),
        ensures
            final(self).wf(),
            if old(self).spec_stack().len() > 0 && (old(self).spec_stack().last()
                == Elem::EmptyList || old(self).spec_stack().last() == Elem::List) {
                &&& r is Ok
                &&& final(self).spec_stack() == old(self).spec_stack().drop_last()
                &&& final(self).spec_stage() == DateTimeStage::Idle
                &&& final(self).out() == old(self).out() + seq![CLOSE_BRACKET]
            } else {
                r == Err::<(), EncodeError>(EncodeError::NotInList) && *final(self) == *old(self)
            },
    {
        let depth = self.stack.len();
        if depth > 0 && (self.stack[depth - 1] == Elem::EmptyList || self.stack[depth - 1]
            == Elem::List) {
            self.push_b(CLOSE_BRACKET);
            self.stack.pop();
            self.stage = DateTimeStage::Idle;
            proof {
                assert(self.stack@ =~= old(self).spec_stack().drop_last());
            }
            Ok(())
        } else {
            Err(EncodeError::NotInList)
        }
    }

    /// Opens a quoted string with `"`.
    pub fn open_string(&mut self) -> (r: Result<(), EncodeError>)
        requires
            old(self).wf(),
        ensures
            final(self).wf(),
            match spec_prepare(old(self).spec_stack()) {
                Ok((st, pre)) => {
                    &&& r is Ok
                    &&& final(self).spec_stack() == st.push(Elem::String)
                    &&& final(self).spec_stage() == DateTimeStage::Idle
                    &&& final(self).out() == old(self).out() + pre + seq![QUOTE]
                },
                Err(e) => r == Err::<(), EncodeError>(e) && *final(self) == *old(self),
            },
    {
        match self.prepare_for_new_value() {
            Ok(()) => {},
            Err(e) => {
                return Err(e);
            },
        }
        self.stack.push(Elem::String);
        self.push_b(QUOTE);
        Ok(())
    }

    /// Appends text to the open string, escaping the restricted byte set
    /// as `\` and two lowercase hex digits.
    pub fn append_string(&mut self, s: &str) -> (r: Result<(), EncodeError>)
        requires
            old(self).wf(),
        ensures
            final(self).wf(),
            if old(self).spec_stack().len() > 0 && old(self).spec_stack().last() == Elem::String {
                &&& r is Ok
                &&& final(self).spec_stack() == old(self).spec_stack()
                &&& final(self).spec_stage() == old(self).spec_stage()
                &&& final(self).out() == old(self).out() + escape_bytes(
                    vstd::utf8::encode_utf8(s@),
                )
            } else {
                r == Err::<(), EncodeError>(EncodeError::NotInString) && *final(self) == *old(self)
            },
    {
        let depth = self.stack.len();
        if !(depth > 0 && self.stack[depth - 1] == Elem::String) {
            return Err(EncodeError::NotInString);
        }
        let sb: &[u8] = s.as_bytes();
        let ghost sbs = sb@;
        proof {
            vstd::utf8::encode_utf8_valid_utf8(s@);
            lemma_escape_bytes_valid(sbs);
        }
        let n = sb.len();
        let mut i: usize = 0;
        let ghost base = self.buf@;
        loop
            invariant
                n == sbs.len(),
                sbs == vstd::utf8::encode_utf8(s@),
                i <= n,
                self.stack == old(self).stack,
                self.stage == old(self).stage,
                base == old(self).out(),
                vstd::utf8::valid_utf8(base),
                vstd::utf8::valid_utf8(escape_bytes(sbs)),
                sb@ == sbs,
                self.buf@ == base + escape_bytes(sbs.take(i as int)),
            ensures
                self.stack == old(self).stack,
                self.stage == old(self).stage,
                self.buf@ == base + escape_bytes(sbs),
            decreases n - i,
        {
            if i >= n {
                proof {
                    assert(sbs.take(n as int) =~= sbs);
                }
                break ;
            }
            let b = *vstd::slice::slice_index_get(sb, i);
            if b <= 0x1f || b == QUOTE || b == BACKSLASH || b == 0x7f {
                self.buf.push(BACKSLASH);
                self.buf.push(if b / 16 < 10 {
                    D0 + b / 16
                } else {
                    LC_A + b / 16 - 10
                });
                self.buf.push(if b % 16 < 10 {
                    D0 + b % 16
                } else {
                    LC_A + b % 16 - 10
                });
            } else {
                self.buf.push(b);
            }
            proof {
                lemma_escape_take_one(sbs, i as int);
                assert(self.buf@ =~= base + escape_bytes(sbs.take(i + 1)));
            }
            i += 1;
        }
        proof {
            vstd::utf8::valid_utf8_concat(base, escape_bytes(sbs));
        }
        Ok(())
    }

    /// Closes the open string with `"`.
    pub fn close_string(&mut self) -> (r: Result<(), EncodeError>)
        requires
            old(self).wf(),
        ensures
            final(self).wf(),
            if old(self).spec_stack().len() > 0 && old(self).spec_stack().last() == Elem::String {
                &&& r is Ok
                &&& final(self).spec_stack() == old(self).spec_stack().drop_last()
                &&& final(self).spec_stage() == DateTimeStage::Idle
                &&& final(self).out() == old(self).out() + seq![QUOTE]
            } else {
                r == Err::<(), EncodeError>(EncodeError::NotInString) && *final(self) == *old(self)
            },
    {
        let depth = self.stack.len();
        if depth > 0 && self.stack[depth - 1] == Elem::String {
            self.stack.pop();
            self.stage = DateTimeStage::Idle;
            self.push_b(QUOTE);
            proof {
                assert(self.stack@ =~= old(self).spec_stack().drop_last());
            }
            Ok(())
        } else {
            Err(EncodeError::NotInString)
        }
    }

    /// Appends a canonically grouped integer.
    pub fn append_integer(&mut self, value: i64) -> (r: Result<(), EncodeError>)
        requires
            old(self).wf(),
        ensures
            final(self).wf(),
            match spec_prepare(old(self).spec_stack()) {
                Ok((st, pre)) => {
                    &&& r is Ok
                    &&& final(self).spec_stack() == st
                    &&& final(self).spec_stage() == DateTimeStage::Idle
                    &&& final(self).out() == old(self).out() + pre + int_text(value as int)
                },
                Err(e) => r == Err::<(), EncodeError>(e) && *final(self) == *old(self),
            },
    {
        match self.prepare_for_new_value() {
            Ok(()) => {},
            Err(e) => {
                return Err(e);
            },
        }
        let mag: u64 = if value < 0 {
            if value == i64::MIN {
                9_223_372_036_854_775_808u64
            } else {
                (-value) as u64
            }
        } else {
            value as u64
        };
        if value < 0 {
            self.push_b(HYPHEN);
        }
        self.push_int_nat(mag);
        proof {
            assert(final(self).out() =~= old(self).out() + spec_prepare(
                old(self).spec_stack(),
            )->Ok_0.1 + int_text(value as int));
        }
        Ok(())
    }

    /// Appends the digit run of `ds` grouped from the right: `_` before
    /// every digit whose distance from the end is a positive multiple of
    /// three.
    fn push_group_right(&mut self, ds: &Vec<u8>)
        requires
            old(self).wf(),
            forall|i: int| 0 <= i < ds@.len() ==> ds@[i] < 0x80,
        ensures
            final(self).wf(),
            final(self).out() == old(self).out() + crate::grammar::group_right(ds@),
            final(self).spec_stack() == old(self).spec_stack(),
            final(self).spec_stage() == old(self).spec_stage(),
            final(self).stage == old(self).stage,
            final(self).stack == old(self).stack,
    {
        let ghost base = self.buf@;
        let n = ds.len();
        let mut i: usize = 0;
        while i < n
            invariant
                self.wf(),
                n == ds@.len(),
                i <= n,
                forall|k: int| 0 <= k < ds@.len() ==> ds@[k] < 0x80,
                self.stack == old(self).stack,
                self.stage == old(self).stage,
                base == old(self).out(),
                self.out() + crate::grammar::group_right_from(ds@, i as int) == base
                    + crate::grammar::group_right(ds@),
            decreases n - i,
        {
            if i > 0 && (n - i) % 3 == 0 {
                self.push_b(UNDERSCORE);
            }
            self.push_b(ds[i]);
            proof {
                assert(self.out() + crate::grammar::group_right_from(ds@, i + 1) =~= base
                    + crate::grammar::group_right(ds@));
            }
            i += 1;
        }
        proof {
            assert(crate::grammar::group_right_from(ds@, n as int) =~= Seq::<u8>::empty());
            assert(self.out() =~= self.out() + crate::grammar::group_right_from(ds@, n as int));
        }
    }

    /// Appends the digit run of `ds` grouped from the left: `_` before
    /// every third digit after the first three.
    fn push_group_left(&mut self, ds: &Vec<u8>)
        requires
            old(self).wf(),
            forall|i: int| 0 <= i < ds@.len() ==> ds@[i] < 0x80,
        ensures
            final(self).wf(),
            final(self).out() == old(self).out() + crate::grammar::group_left(ds@),
            final(self).spec_stack() == old(self).spec_stack(),
            final(self).spec_stage() == old(self).spec_stage(),
            final(self).stage == old(self).stage,
            final(self).stack == old(self).stack,
    {
        let ghost base = self.buf@;
        let n = ds.len();
        let mut i: usize = 0;
        while i < n
            invariant
                self.wf(),
                n == ds@.len(),
                i <= n,
                forall|k: int| 0 <= k < ds@.len() ==> ds@[k] < 0x80,
                self.stack == old(self).stack,
                self.stage == old(self).stage,
                base == old(self).out(),
                self.out() + crate::grammar::group_left_from(ds@, i as int) == base
                    + crate::grammar::group_left(ds@),
            decreases n - i,
        {
            if i > 0 && i % 3 == 0 {
                self.push_b(UNDERSCORE);
            }
            self.push_b(ds[i]);
            proof {
                assert(self.out() + crate::grammar::group_left_from(ds@, i + 1) =~= base
                    + crate::grammar::group_left(ds@));
            }
            i += 1;
        }
        proof {
            assert(crate::grammar::group_left_from(ds@, n as int) =~= Seq::<u8>::empty());
            assert(self.out() =~= self.out() + crate::grammar::group_left_from(ds@, n as int));
        }
    }

    /// The decimal digit bytes of `mag`, most significant first.
    fn digit_vec(&self, mag: u64) -> (ds: Vec<u8>)
        requires
            mag > 0,
        ensures
            ds@ == digits(mag as nat),
            forall|i: int| 0 <= i < ds@.len() ==> D0 <= #[trigger] ds@[i] <= D9,
    {
        let mut ds: Vec<u8> = Vec::new();
        let mut m = mag;
        while m > 0
            invariant
                m > 0 ==> digits(mag as nat) == digits(m as nat) + ds@,
                m == 0 ==> ds@ == digits(mag as nat),
                forall|i: int| 0 <= i < ds@.len() ==> D0 <= #[trigger] ds@[i] <= D9,
            decreases m,
        {
            let digit: u8 = D0 + (m % 10) as u8;
            ds.insert(0, digit);
            proof {
                if m >= 10 {
                    assert(digits(m as nat) =~= digits((m as nat) / 10) + seq![
                        (D0 + (m as nat) % 10) as u8,
                    ]);
                    assert(digits((m / 10) as nat) + ds@ =~= digits(mag as nat));
                } else {
                    assert(digits(m as nat) =~= seq![(D0 + (m as nat) % 10) as u8]);
                    assert(ds@ =~= digits(mag as nat));
                }
            }
            m = m / 10;
        }
        ds
    }

    /// Appends the canonical decimal spelling of `value * 10^exponent`,
    /// without the new-value step.
    #[verifier::rlimit(100)]
    #[verifier::spinoff_prover]
    fn push_decimal(&mut self, value: i64, exponent: i8)
        requires
            old(self).wf(),
        ensures
            final(self).wf(),
            final(self).out() == old(self).out() + decimal_text(value as int, exponent as int),
            final(self).spec_stack() == old(self).spec_stack(),
            final(self).spec_stage() == old(self).spec_stage(),
            final(self).stage == old(self).stage,
            final(self).stack == old(self).stack,
    {
        let ghost base = self.buf@;
        if value == 0 {
            if exponent >= 0 {
                self.push_b(D0);
                self.push_b(PERIOD);
                self.push_b(D0);
                proof {
                    assert(final(self).out() =~= old(self).out() + decimal_text(
                        value as int,
                        exponent as int,
                    ));
                }
            } else {
                self.push_b(D0);
                self.push_b(PERIOD);
                let k: usize = (-(exponent as i16)) as usize;
                let mut zs: Vec<u8> = Vec::new();
                let mut t: usize = 0;
                while t < k
                    invariant
                        t <= k,
                        zs@ =~= crate::grammar::zeroes(t as int),
                    decreases k - t,
                {
                    zs.push(D0);
                    t += 1;
                    proof {
                        assert(zs@ =~= crate::grammar::zeroes(t as int));
                    }
                }
                proof {
                    assert(forall|i: int| 0 <= i < zs@.len() ==> zs@[i] < 0x80);
                }
                self.push_group_left(&zs);
                proof {
                    assert(final(self).out() =~= old(self).out() + decimal_text(
                        value as int,
                        exponent as int,
                    ));
                }
            }
            return ;
        }
        let mag: u64 = if value < 0 {
            if value == i64::MIN {
                9_223_372_036_854_775_808u64
            } else {
                (-value) as u64
            }
        } else {
            value as u64
        };
        proof {
            assert(mag as int == crate::grammar::abs(value as int));
        }
        if value < 0 {
            self.push_b(HYPHEN);
        }
        let mut ds = self.digit_vec(mag);
        let len = ds.len();
        if exponent >= 0 {
            let k: usize = exponent as usize;
            let mut t: usize = 0;
            while t < k
                invariant
                    t <= k,
                    ds@ =~= digits(mag as nat) + crate::grammar::zeroes(t as int),
                    forall|i: int| 0 <= i < ds@.len() ==> D0 <= #[trigger] ds@[i] <= D9,
                decreases k - t,
            {
                ds.push(D0);
                t += 1;
                proof {
                    assert(ds@ =~= digits(mag as nat) + crate::grammar::zeroes(t as int));
                }
            }
            self.push_group_right(&ds);
            self.push_b(PERIOD);
            self.push_b(D0);
            proof {
                assert(final(self).out() =~= old(self).out() + decimal_text(
                    value as int,
                    exponent as int,
                ));
            }
        } else {
            let k: usize = (-(exponent as i16)) as usize;
            if len > k {
                let mut int_part: Vec<u8> = Vec::new();
                let mut t: usize = 0;
                while t < len - k
                    invariant
                        t <= len - k <= len,
                        len == ds@.len(),
                        int_part@ =~= ds@.take(t as int),
                        forall|i: int| 0 <= i < ds@.len() ==> D0 <= #[trigger] ds@[i] <= D9,
                    decreases len - k - t,
                {
                    int_part.push(ds[t]);
                    t += 1;
                    proof {
                        assert(int_part@ =~= ds@.take(t as int));
                    }
                }
                let mut frac_part: Vec<u8> = Vec::new();
                let mut u: usize = len - k;
                while u < len
                    invariant
                        0 <= len - k <= u <= len,
                        len == ds@.len(),
                        frac_part@ =~= ds@.subrange(len - k, u as int),
                        forall|i: int| 0 <= i < ds@.len() ==> D0 <= #[trigger] ds@[i] <= D9,
                    decreases len - u,
                {
                    frac_part.push(ds[u]);
                    proof {
                        assert(frac_part@.len() == u + 1 - (len - k));
                        assert(forall|j: int|
                            0 <= j < frac_part@.len() ==> frac_part@[j] == ds@[len - k + j]);
                        assert(frac_part@ =~= ds@.subrange(len - k, u + 1));
                    }
                    u += 1;
                }
                proof {
                    assert(forall|i: int| 0 <= i < int_part@.len() ==> int_part@[i] < 0x80);
                    assert(forall|i: int| 0 <= i < frac_part@.len() ==> frac_part@[i] < 0x80);
                    assert(frac_part@ =~= ds@.skip(len - k));
                }
                self.push_group_right(&int_part);
                self.push_b(PERIOD);
                self.push_group_left(&frac_part);
                proof {
                    assert(final(self).out() =~= old(self).out() + decimal_text(
                        value as int,
                        exponent as int,
                    ));
                }
            } else {
                self.push_b(D0);
                self.push_b(PERIOD);
                let mut frac_part: Vec<u8> = Vec::new();
                let mut t: usize = 0;
                while t < k - len
                    invariant
                        len <= k,
                        t <= k - len,
                        frac_part@ =~= crate::grammar::zeroes(t as int),
                    decreases k - len - t,
                {
                    frac_part.push(D0);
                    t += 1;
                    proof {
                        assert(frac_part@ =~= crate::grammar::zeroes(t as int));
                    }
                }
                let mut u: usize = 0;
                while u < len
                    invariant
                        len <= k,
                        u <= len,
                        len == ds@.len(),
                        frac_part@ =~= crate::grammar::zeroes((k - len) as int) + ds@.take(
                            u as int,
                        ),
                        forall|i: int| 0 <= i < ds@.len() ==> D0 <= #[trigger] ds@[i] <= D9,
                    decreases len - u,
                {
                    frac_part.push(ds[u]);
                    u += 1;
                    proof {
                        assert(frac_part@ =~= crate::grammar::zeroes((k - len) as int) + ds@.take(
                            u as int,
                        ));
                    }
                }
                proof {
                    assert(forall|i: int| 0 <= i < frac_part@.len() ==> frac_part@[i] < 0x80);
                    assert(ds@.take(len as int) =~= ds@);
                }
                self.push_group_left(&frac_part);
                proof {
                    assert(final(self).out() =~= old(self).out() + decimal_text(
                        value as int,
                        exponent as int,
                    ));
                }
            }
        }
    }

    /// Appends the canonical decimal spelling of `value * 10^base10_exponent`:
    /// one `.`, the integer part grouped from the right, the fraction from
    /// the left, with a zero mantissa still rendering the digit positions
    /// the exponent implies.
    pub fn append_decimal(&mut self, value: i64, base10_exponent: i8) -> (r: Result<
        (),
        EncodeError,
    >)
        requires
            old(self).wf(),
        ensures
            final(self).wf(),
            match spec_prepare(old(self).spec_stack()) {
                Ok((st, pre)) => {
                    &&& r is Ok
                    &&& final(self).spec_stack() == st
                    &&& final(self).spec_stage() == DateTimeStage::Idle
                    &&& final(self).out() == old(self).out() + pre + decimal_text(
                        value as int,
                        base10_exponent as int,
                    )
                },
                Err(e) => r == Err::<(), EncodeError>(e) && *final(self) == *old(self),
            },
    {
        match self.prepare_for_new_value() {
            Ok(()) => {},
            Err(e) => {
                return Err(e);
            },
        }
        self.push_decimal(value, base10_exponent);
        proof {
            assert(final(self).out() =~= old(self).out() + spec_prepare(
                old(self).spec_stack(),
            )->Ok_0.1 + decimal_text(value as int, base10_exponent as int));
        }
        Ok(())
    }

    /// Appends `D` and the year, zero padded to the grammar's four
    /// digits, opening the date/time chain.
    pub fn append_year(&mut self, year: u16) -> (r: Result<(), EncodeError>)
        requires
            old(self).wf(),
        ensures
            final(self).wf(),
            match spec_prepare(old(self).spec_stack()) {
                Ok((st, pre)) => if 1 <= year <= 9999 {
                    &&& r is Ok
                    &&& final(self).spec_stack() == st
                    &&& final(self).spec_stage() == DateTimeStage::AfterYear
                    &&& final(self).out() == old(self).out() + pre + year_text(year as int)
                } else {
                    &&& r == Err::<(), EncodeError>(EncodeError::InvalidYear)
                    &&& final(self).spec_stack() == st
                    &&& final(self).spec_stage() == DateTimeStage::Idle
                    &&& final(self).out() == old(self).out() + pre
                },
                Err(e) => r == Err::<(), EncodeError>(e) && *final(self) == *old(self),
            },
    {
        match self.prepare_for_new_value() {
            Ok(()) => {},
            Err(e) => {
                return Err(e);
            },
        }
        if !(1 <= year && year <= 9999) {
            return Err(EncodeError::InvalidYear);
        }
        self.push_b(UC_D);
        self.push_pad2((year / 100) as u8);
        self.push_pad2((year % 100) as u8);
        self.stage = DateTimeStage::AfterYear;
        proof {
            let y = year as int;
            assert((y % 100) / 10 == (y / 10) % 10) by (nonlinear_arith)
                requires
                    0 <= y <= 9999,
            ;
            assert((y % 100) % 10 == y % 10) by (nonlinear_arith)
                requires
                    0 <= y <= 9999,
            ;
            assert(pad2((year / 100) as nat) + pad2((year % 100) as nat) =~= crate::grammar::pad4(
                year as nat,
            ));
            assert(final(self).out() =~= old(self).out() + spec_prepare(
                old(self).spec_stack(),
            )->Ok_0.1 + year_text(year as int));
        }
        Ok(())
    }

    /// Appends `-` and the month, continuing the chain after a year.
    pub fn append_month(&mut self, month: u8) -> (r: Result<(), EncodeError>)
        requires
            old(self).wf(),
        ensures
            final(self).wf(),
            if old(self).spec_stage() != DateTimeStage::AfterYear {
                r == Err::<(), EncodeError>(EncodeError::NotInDateTime) && *final(self) == *old(
                    self,
                )
            } else if !(1 <= month <= 12) {
                &&& r == Err::<(), EncodeError>(EncodeError::InvalidMonth)
                &&& final(self).out() == old(self).out()
                &&& final(self).spec_stack() == old(self).spec_stack()
                &&& final(self).spec_stage() == DateTimeStage::Idle
            } else {
                &&& r is Ok
                &&& final(self).out() == old(self).out() + month_text(month as int)
                &&& final(self).spec_stack() == old(self).spec_stack()
                &&& final(self).spec_stage() == DateTimeStage::AfterMonth
            },
    {
        if !matches!(self.stage, DateTimeStage::AfterYear) {
            return Err(EncodeError::NotInDateTime);
        }
        if !(1 <= month && month <= 12) {
            self.stage = DateTimeStage::Idle;
            return Err(EncodeError::InvalidMonth);
        }
        self.push_b(HYPHEN);
        self.push_pad2(month);
        self.stage = DateTimeStage::AfterMonth;
        proof {
            assert(final(self).out() =~= old(self).out() + month_text(month as int));
        }
        Ok(())
    }

    /// Appends `-W` and the week, continuing the chain after a year.
    pub fn append_week(&mut self, week: u8) -> (r: Result<(), EncodeError>)
        requires
            old(self).wf(),
        ensures
            final(self).wf(),
            if old(self).spec_stage() != DateTimeStage::AfterYear {
                r == Err::<(), EncodeError>(EncodeError::NotInDateTime) && *final(self) == *old(
                    self,
                )
            } else if !(1 <= week <= 53) {
                &&& r == Err::<(), EncodeError>(EncodeError::InvalidWeek)
                &&& final(self).out() == old(self).out()
                &&& final(self).spec_stack() == old(self).spec_stack()
                &&& final(self).spec_stage() == DateTimeStage::Idle
            } else {
                &&& r is Ok
                &&& final(self).out() == old(self).out() + week_text(week as int)
                &&& final(self).spec_stack() == old(self).spec_stack()
                &&& final(self).spec_stage() == DateTimeStage::AfterWeek
            },
    {
        if !matches!(self.stage, DateTimeStage::AfterYear) {
            return Err(EncodeError::NotInDateTime);
        }
        if !(1 <= week && week <= 53) {
            self.stage = DateTimeStage::Idle;
            return Err(EncodeError::InvalidWeek);
        }
        self.push_b(HYPHEN);
        self.push_b(UC_W);
        self.push_pad2(week);
        self.stage = DateTimeStage::AfterWeek;
        proof {
            assert(final(self).out() =~= old(self).out() + week_text(week as int));
        }
        Ok(())
    }

    /// Appends `-` and the day, continuing the chain after a month.
    pub fn append_day(&mut self, day: u8) -> (r: Result<(), EncodeError>)
        requires
            old(self).wf(),
        ensures
            final(self).wf(),
            if old(self).spec_stage() != DateTimeStage::AfterMonth {
                r == Err::<(), EncodeError>(EncodeError::NotInDateTime) && *final(self) == *old(
                    self,
                )
            } else if !(1 <= day <= 31) {
                &&& r == Err::<(), EncodeError>(EncodeError::InvalidDay)
                &&& final(self).out() == old(self).out()
                &&& final(self).spec_stack() == old(self).spec_stack()
                &&& final(self).spec_stage() == DateTimeStage::Idle
            } else {
                &&& r is Ok
                &&& final(self).out() == old(self).out() + day_text(day as int)
                &&& final(self).spec_stack() == old(self).spec_stack()
                &&& final(self).spec_stage() == DateTimeStage::AfterDay
            },
    {
        if !matches!(self.stage, DateTimeStage::AfterMonth) {
            return Err(EncodeError::NotInDateTime);
        }
        if !(1 <= day && day <= 31) {
            self.stage = DateTimeStage::Idle;
            return Err(EncodeError::InvalidDay);
        }
        self.push_b(HYPHEN);
        self.push_pad2(day);
        self.stage = DateTimeStage::AfterDay;
        proof {
            assert(final(self).out() =~= old(self).out() + day_text(day as int));
        }
        Ok(())
    }

    /// Appends `-` and the weekday, continuing the chain after a week.
    pub fn append_weekday(&mut self, weekday: u8) -> (r: Result<(), EncodeError>)
        requires
            old(self).wf(),
        ensures
            final(self).wf(),
            if old(self).spec_stage() != DateTimeStage::AfterWeek {
                r == Err::<(), EncodeError>(EncodeError::NotInDateTime) && *final(self) == *old(
                    self,
                )
            } else if !(1 <= weekday <= 7) {
                &&& r == Err::<(), EncodeError>(EncodeError::InvalidWeekday)
                &&& final(self).out() == old(self).out()
                &&& final(self).spec_stack() == old(self).spec_stack()
                &&& final(self).spec_stage() == DateTimeStage::Idle
            } else {
                &&& r is Ok
                &&& final(self).out() == old(self).out() + weekday_text(weekday as int)
                &&& final(self).spec_stack() == old(self).spec_stack()
                &&& final(self).spec_stage() == DateTimeStage::AfterDay
            },
    {
        if !matches!(self.stage, DateTimeStage::AfterWeek) {
            return Err(EncodeError::NotInDateTime);
        }
        if !(1 <= weekday && weekday <= 7) {
            self.stage = DateTimeStage::Idle;
            return Err(EncodeError::InvalidWeekday);
        }
        self.push_b(HYPHEN);
        self.push_pad2(weekday);
        self.stage = DateTimeStage::AfterDay;
        proof {
            assert(final(self).out() =~= old(self).out() + weekday_text(weekday as int));
        }
        Ok(())
    }

    /// Appends `T` and the hour: as a new time value from outside a chain,
    /// or as the continuation of a day-bearing date.
    pub fn append_hour(&mut self, hour: u8) -> (r: Result<(), EncodeError>)
        requires
            old(self).wf(),
        ensures
            final(self).wf(),
            if old(self).spec_stage() == DateTimeStage::AfterDay {
                if hour <= 23 {
                    &&& r is Ok
                    &&& final(self).out() == old(self).out() + hour_text(hour as int)
                    &&& final(self).spec_stack() == old(self).spec_stack()
                    &&& final(self).spec_stage() == DateTimeStage::AfterHour
                } else {
                    &&& r == Err::<(), EncodeError>(EncodeError::InvalidHour)
                    &&& final(self).out() == old(self).out()
                    &&& final(self).spec_stack() == old(self).spec_stack()
                    &&& final(self).spec_stage() == DateTimeStage::Idle
                }
            } else {
                match spec_prepare(old(self).spec_stack()) {
                    Ok((st, pre)) => if hour <= 23 {
                        &&& r is Ok
                        &&& final(self).spec_stack() == st
                        &&& final(self).spec_stage() == DateTimeStage::AfterHour
                        &&& final(self).out() == old(self).out() + pre + hour_text(hour as int)
                    } else {
                        &&& r == Err::<(), EncodeError>(EncodeError::InvalidHour)
                        &&& final(self).spec_stack() == st
                        &&& final(self).spec_stage() == DateTimeStage::Idle
                        &&& final(self).out() == old(self).out() + pre
                    },
                    Err(e) => r == Err::<(), EncodeError>(e) && *final(self) == *old(self),
                }
            },
    {
        if matches!(self.stage, DateTimeStage::AfterDay) {
            if hour > 23 {
                self.stage = DateTimeStage::Idle;
                return Err(EncodeError::InvalidHour);
            }
            self.push_b(UC_T);
            self.push_pad2(hour);
            self.stage = DateTimeStage::AfterHour;
            proof {
                assert(final(self).out() =~= old(self).out() + hour_text(hour as int));
            }
            return Ok(());
        }
        match self.prepare_for_new_value() {
            Ok(()) => {},
            Err(e) => {
                return Err(e);
            },
        }
        if hour > 23 {
            return Err(EncodeError::InvalidHour);
        }
        self.push_b(UC_T);
        self.push_pad2(hour);
        self.stage = DateTimeStage::AfterHour;
        proof {
            assert(final(self).out() =~= old(self).out() + spec_prepare(
                old(self).spec_stack(),
            )->Ok_0.1 + hour_text(hour as int));
        }
        Ok(())
    }

    /// Appends `:` and the minute, continuing the chain after an hour.
    pub fn append_minute(&mut self, minute: u8) -> (r: Result<(), EncodeError>)
        requires
            old(self).wf(),
        ensures
            final(self).wf(),
            if old(self).spec_stage() != DateTimeStage::AfterHour {
                r == Err::<(), EncodeError>(EncodeError::NotInDateTime) && *final(self) == *old(
                    self,
                )
            } else if !(minute <= 59) {
                &&& r == Err::<(), EncodeError>(EncodeError::InvalidMinute)
                &&& final(self).out() == old(self).out()
                &&& final(self).spec_stack() == old(self).spec_stack()
                &&& final(self).spec_stage() == DateTimeStage::Idle
            } else {
                &&& r is Ok
                &&& final(self).out() == old(self).out() + minute_text(minute as int)
                &&& final(self).spec_stack() == old(self).spec_stack()
                &&& final(self).spec_stage() == DateTimeStage::AfterMinute
            },
    {
        if !matches!(self.stage, DateTimeStage::AfterHour) {
            return Err(EncodeError::NotInDateTime);
        }
        if minute > 59 {
            self.stage = DateTimeStage::Idle;
            return Err(EncodeError::InvalidMinute);
        }
        self.push_b(COLON);
        self.push_pad2(minute);
        self.stage = DateTimeStage::AfterMinute;
        proof {
            assert(final(self).out() =~= old(self).out() + minute_text(minute as int));
        }
        Ok(())
    }

    /// Appends `:` and the second, continuing the chain after a minute;
    /// 60 is permitted for leap seconds.
    pub fn append_second(&mut self, second: u8) -> (r: Result<(), EncodeError>)
        requires
            old(self).wf(),
        ensures
            final(self).wf(),
            if old(self).spec_stage() != DateTimeStage::AfterMinute {
                r == Err::<(), EncodeError>(EncodeError::NotInDateTime) && *final(self) == *old(
                    self,
                )
            } else if !(second <= 60) {
                &&& r == Err::<(), EncodeError>(EncodeError::InvalidSecond)
                &&& final(self).out() == old(self).out()
                &&& final(self).spec_stack() == old(self).spec_stack()
                &&& final(self).spec_stage() == DateTimeStage::Idle
            } else {
                &&& r is Ok
                &&& final(self).out() == old(self).out() + second_text(second as int)
                &&& final(self).spec_stack() == old(self).spec_stack()
                &&& final(self).spec_stage() == DateTimeStage::AfterSecond
            },
    {
        if !matches!(self.stage, DateTimeStage::AfterMinute) {
            return Err(EncodeError::NotInDateTime);
        }
        if second > 60 {
            self.stage = DateTimeStage::Idle;
            return Err(EncodeError::InvalidSecond);
        }
        self.push_b(COLON);
        self.push_pad2(second);
        self.stage = DateTimeStage::AfterSecond;
        proof {
            assert(final(self).out() =~= old(self).out() + second_text(second as int));
        }
        Ok(())
    }

    /// Appends the seconds column and millisecond group of a cumulative
    /// millisecond total, continuing the chain after a minute.
    pub fn append_millisecond(&mut self, millisecond: u32) -> (r: Result<(), EncodeError>)
        requires
            old(self).wf(),
        ensures
            final(self).wf(),
            if old(self).spec_stage() != DateTimeStage::AfterMinute {
                r == Err::<(), EncodeError>(EncodeError::NotInDateTime) && *final(self) == *old(
                    self,
                )
            } else if !(millisecond <= 60_999) {
                &&& r == Err::<(), EncodeError>(EncodeError::InvalidMillisecond)
                &&& final(self).out() == old(self).out()
                &&& final(self).spec_stack() == old(self).spec_stack()
                &&& final(self).spec_stage() == DateTimeStage::Idle
            } else {
                &&& r is Ok
                &&& final(self).out() == old(self).out() + ms_text(millisecond as int)
                &&& final(self).spec_stack() == old(self).spec_stack()
                &&& final(self).spec_stage() == DateTimeStage::AfterSecond
            },
    {
        if !matches!(self.stage, DateTimeStage::AfterMinute) {
            return Err(EncodeError::NotInDateTime);
        }
        if millisecond > 60_999 {
            self.stage = DateTimeStage::Idle;
            return Err(EncodeError::InvalidMillisecond);
        }
        self.push_b(COLON);
        self.push_pad2((millisecond / 1000) as u8);
        self.push_b(PERIOD);
        self.push_pad3((millisecond % 1000) as u16);
        self.stage = DateTimeStage::AfterSecond;
        proof {
            assert(final(self).out() =~= old(self).out() + ms_text(millisecond as int));
        }
        Ok(())
    }

    /// Appends the seconds column, millisecond and microsecond groups of a
    /// cumulative microsecond total, continuing the chain after a minute.
    pub fn append_microsecond(&mut self, microsecond: u32) -> (r: Result<(), EncodeError>)
        requires
            old(self).wf(),
        ensures
            final(self).wf(),
            if old(self).spec_stage() != DateTimeStage::AfterMinute {
                r == Err::<(), EncodeError>(EncodeError::NotInDateTime) && *final(self) == *old(
                    self,
                )
            } else if !(microsecond <= 60_999_999) {
                &&& r == Err::<(), EncodeError>(EncodeError::InvalidMicrosecond)
                &&& final(self).out() == old(self).out()
                &&& final(self).spec_stack() == old(self).spec_stack()
                &&& final(self).spec_stage() == DateTimeStage::Idle
            } else {
                &&& r is Ok
                &&& final(self).out() == old(self).out() + us_text(microsecond as int)
                &&& final(self).spec_stack() == old(self).spec_stack()
                &&& final(self).spec_stage() == DateTimeStage::AfterSecond
            },
    {
        if !matches!(self.stage, DateTimeStage::AfterMinute) {
            return Err(EncodeError::NotInDateTime);
        }
        if microsecond > 60_999_999 {
            self.stage = DateTimeStage::Idle;
            return Err(EncodeError::InvalidMicrosecond);
        }
        self.push_b(COLON);
        self.push_pad2((microsecond / 1_000_000) as u8);
        self.push_b(PERIOD);
        self.push_pad3(((microsecond / 1000) % 1000) as u16);
        self.push_b(UNDERSCORE);
        self.push_pad3((microsecond % 1000) as u16);
        self.stage = DateTimeStage::AfterSecond;
        proof {
            let us = microsecond as int;
            assert((us / 1000) / 1000 == us / 1_000_000) by (nonlinear_arith);
            assert(ms_text(us / 1000) =~= seq![COLON] + pad2((us / 1_000_000) as nat) + seq![
                PERIOD,
            ] + pad3(((us / 1000) % 1000) as nat));
            assert(final(self).out() =~= old(self).out() + us_text(microsecond as int));
        }
        Ok(())
    }

    /// Appends the seconds column and all three sub-second groups of a
    /// cumulative nanosecond total, continuing the chain after a minute.
    pub fn append_nanosecond(&mut self, nanosecond: u64) -> (r: Result<(), EncodeError>)
        requires
            old(self).wf(),
        ensures
            final(self).wf(),
            if old(self).spec_stage() != DateTimeStage::AfterMinute {
                r == Err::<(), EncodeError>(EncodeError::NotInDateTime) && *final(self) == *old(
                    self,
                )
            } else if !(nanosecond <= 60_999_999_999) {
                &&& r == Err::<(), EncodeError>(EncodeError::InvalidNanosecond)
                &&& final(self).out() == old(self).out()
                &&& final(self).spec_stack() == old(self).spec_stack()
                &&& final(self).spec_stage() == DateTimeStage::Idle
            } else {
                &&& r is Ok
                &&& final(self).out() == old(self).out() + ns_text(nanosecond as int)
                &&& final(self).spec_stack() == old(self).spec_stack()
                &&& final(self).spec_stage() == DateTimeStage::AfterSecond
            },
    {
        if !matches!(self.stage, DateTimeStage::AfterMinute) {
            return Err(EncodeError::NotInDateTime);
        }
        if nanosecond > 60_999_999_999 {
            self.stage = DateTimeStage::Idle;
            return Err(EncodeError::InvalidNanosecond);
        }
        self.push_b(COLON);
        self.push_pad2((nanosecond / 1_000_000_000) as u8);
        self.push_b(PERIOD);
        self.push_pad3(((nanosecond / 1_000_000) % 1000) as u16);
        self.push_b(UNDERSCORE);
        self.push_pad3(((nanosecond / 1000) % 1000) as u16);
        self.push_b(UNDERSCORE);
        self.push_pad3((nanosecond % 1000) as u16);
        self.stage = DateTimeStage::AfterSecond;
        proof {
            let ns = nanosecond as int;
            assert((ns / 1000) / 1000 == ns / 1_000_000) by (nonlinear_arith);
            assert(((ns / 1000) / 1000) / 1000 == ns / 1_000_000_000) by (nonlinear_arith);
            assert(ms_text((ns / 1000) / 1000) =~= seq![COLON] + pad2(
                (ns / 1_000_000_000) as nat,
            ) + seq![PERIOD] + pad3((((ns / 1000) / 1000) % 1000) as nat));
            assert(us_text(ns / 1000) =~= ms_text((ns / 1000) / 1000) + seq![UNDERSCORE] + pad3(
                (((ns / 1000) % 1000)) as nat,
            ));
            assert(final(self).out() =~= old(self).out() + ns_text(nanosecond as int));
        }
        Ok(())
    }

    /// Appends the timezone offset and ends the chain: `Z` for zero,
    /// otherwise `+` or `~`, the hour, and `:` with the minutes only when
    /// they are nonzero — the one legal spelling per value, which the
    /// decoder accepts back.
    pub fn append_tzoffset(&mut self, hour: i8, minute: u8) -> (r: Result<(), EncodeError>)
        requires
            old(self).wf(),
        ensures
            final(self).wf(),
            if old(self).spec_stage() == DateTimeStage::Idle {
                r == Err::<(), EncodeError>(EncodeError::NotInDateTime) && *final(self) == *old(
                    self,
                )
            } else if !(-23 <= hour <= 23 && minute <= 59) {
                &&& r == Err::<(), EncodeError>(EncodeError::InvalidTimezoneOffset)
                &&& final(self).out() == old(self).out()
                &&& final(self).spec_stack() == old(self).spec_stack()
                &&& final(self).spec_stage() == DateTimeStage::Idle
            } else {
                &&& r is Ok
                &&& final(self).out() == old(self).out() + tz_text(hour as int, minute as int)
                &&& final(self).spec_stack() == old(self).spec_stack()
                &&& final(self).spec_stage() == DateTimeStage::Idle
            },
    {
        if matches!(self.stage, DateTimeStage::Idle) {
            return Err(EncodeError::NotInDateTime);
        }
        if !(-23 <= hour && hour <= 23 && minute <= 59) {
            self.stage = DateTimeStage::Idle;
            return Err(EncodeError::InvalidTimezoneOffset);
        }
        self.stage = DateTimeStage::Idle;
        if hour == 0 && minute == 0 {
            self.push_b(UC_Z);
            proof {
                assert(final(self).out() =~= old(self).out() + tz_text(hour as int, minute as int));
            }
            return Ok(());
        }
        self.push_b(if hour >= 0 {
            PLUS
        } else {
            TILDE
        });
        let mag: u8 = if hour >= 0 {
            hour as u8
        } else {
            (-hour) as u8
        };
        self.push_pad2(mag);
        if minute > 0 {
            self.push_b(COLON);
            self.push_pad2(minute);
        }
        proof {
            assert(mag as int == crate::grammar::abs(hour as int));
            assert(final(self).out() =~= old(self).out() + tz_text(hour as int, minute as int));
        }
        Ok(())
    }

    /// Appends `S` and a whole-second timestamp as a grouped integer.
    pub fn append_timestamp_seconds(&mut self, s: u64) -> (r: Result<(), EncodeError>)
        requires
            old(self).wf(),
        ensures
            final(self).wf(),
            match spec_prepare(old(self).spec_stack()) {
                Ok((st, pre)) => if s <= i64::MAX {
                    &&& r is Ok
                    &&& final(self).spec_stack() == st
                    &&& final(self).spec_stage() == DateTimeStage::Idle
                    &&& final(self).out() == old(self).out() + pre + seq![UC_S] + int_text(
                        s as int,
                    )
                } else {
                    &&& r == Err::<(), EncodeError>(EncodeError::InvalidTimestamp)
                    &&& final(self).spec_stack() == st
                    &&& final(self).spec_stage() == DateTimeStage::Idle
                    &&& final(self).out() == old(self).out() + pre + seq![UC_S]
                },
                Err(e) => r == Err::<(), EncodeError>(e) && *final(self) == *old(self),
            },
    {
        match self.prepare_for_new_value() {
            Ok(()) => {},
            Err(e) => {
                return Err(e);
            },
        }
        self.push_b(UC_S);
        if s > i64::MAX as u64 {
            return Err(EncodeError::InvalidTimestamp);
        }
        self.push_int_nat(s);
        proof {
            assert(final(self).out() =~= old(self).out() + spec_prepare(
                old(self).spec_stack(),
            )->Ok_0.1 + seq![UC_S] + int_text(s as int));
        }
        Ok(())
    }

    /// Appends `S` and a millisecond timestamp as a three-place decimal.
    pub fn append_timestamp_milliseconds(&mut self, ms: u64) -> (r: Result<(), EncodeError>)
        requires
            old(self).wf(),
        ensures
            final(self).wf(),
            match spec_prepare(old(self).spec_stack()) {
                Ok((st, pre)) => if ms <= i64::MAX {
                    &&& r is Ok
                    &&& final(self).spec_stack() == st
                    &&& final(self).spec_stage() == DateTimeStage::Idle
                    &&& final(self).out() == old(self).out() + pre + seq![UC_S] + decimal_text(
                        ms as int,
                        -3,
                    )
                } else {
                    &&& r == Err::<(), EncodeError>(EncodeError::InvalidTimestamp)
                    &&& final(self).spec_stack() == st
                    &&& final(self).spec_stage() == DateTimeStage::Idle
                    &&& final(self).out() == old(self).out() + pre + seq![UC_S]
                },
                Err(e) => r == Err::<(), EncodeError>(e) && *final(self) == *old(self),
            },
    {
        match self.prepare_for_new_value() {
            Ok(()) => {},
            Err(e) => {
                return Err(e);
            },
        }
        self.push_b(UC_S);
        if ms > i64::MAX as u64 {
            return Err(EncodeError::InvalidTimestamp);
        }
        self.push_decimal(ms as i64, -3);
        proof {
            assert(final(self).out() =~= old(self).out() + spec_prepare(
                old(self).spec_stack(),
            )->Ok_0.1 + seq![UC_S] + decimal_text(ms as int, -3));
        }
        Ok(())
    }

    /// Appends `S` and a microsecond timestamp as a six-place decimal.
    pub fn append_timestamp_microseconds(&mut self, us: u64) -> (r: Result<(), EncodeError>)
        requires
            old(self).wf(),
        ensures
            final(self).wf(),
            match spec_prepare(old(self).spec_stack()) {
                Ok((st, pre)) => if us <= i64::MAX {
                    &&& r is Ok
                    &&& final(self).spec_stack() == st
                    &&& final(self).spec_stage() == DateTimeStage::Idle
                    &&& final(self).out() == old(self).out() + pre + seq![UC_S] + decimal_text(
                        us as int,
                        -6,
                    )
                } else {
                    &&& r == Err::<(), EncodeError>(EncodeError::InvalidTimestamp)
                    &&& final(self).spec_stack() == st
                    &&& final(self).spec_stage() == DateTimeStage::Idle
                    &&& final(self).out() == old(self).out() + pre + seq![UC_S]
                },
                Err(e) => r == Err::<(), EncodeError>(e) && *final(self) == *old(self),
            },
    {
        match self.prepare_for_new_value() {
            Ok(()) => {},
            Err(e) => {
                return Err(e);
            },
        }
        self.push_b(UC_S);
        if us > i64::MAX as u64 {
            return Err(EncodeError::InvalidTimestamp);
        }
        self.push_decimal(us as i64, -6);
        proof {
            assert(final(self).out() =~= old(self).out() + spec_prepare(
                old(self).spec_stack(),
            )->Ok_0.1 + seq![UC_S] + decimal_text(us as int, -6));
        }
        Ok(())
    }

    /// Appends `S` and a nanosecond timestamp as a nine-place decimal.
    pub fn append_timestamp_nanosecond(&mut self, ns: u64) -> (r: Result<(), EncodeError>)
        requires
            old(self).wf(),
        ensures
            final(self).wf(),
            match spec_prepare(old(self).spec_stack()) {
                Ok((st, pre)) => if ns <= i64::MAX {
                    &&& r is Ok
                    &&& final(self).spec_stack() == st
                    &&& final(self).spec_stage() == DateTimeStage::Idle
                    &&& final(self).out() == old(self).out() + pre + seq![UC_S] + decimal_text(
                        ns as int,
                        -9,
                    )
                } else {
                    &&& r == Err::<(), EncodeError>(EncodeError::InvalidTimestamp)
                    &&& final(self).spec_stack() == st
                    &&& final(self).spec_stage() == DateTimeStage::Idle
                    &&& final(self).out() == old(self).out() + pre + seq![UC_S]
                },
                Err(e) => r == Err::<(), EncodeError>(e) && *final(self) == *old(self),
            },
    {
        match self.prepare_for_new_value() {
            Ok(()) => {},
            Err(e) => {
                return Err(e);
            },
        }
        self.push_b(UC_S);
        if ns > i64::MAX as u64 {
            return Err(EncodeError::InvalidTimestamp);
        }
        self.push_decimal(ns as i64, -9);
        proof {
            assert(final(self).out() =~= old(self).out() + spec_prepare(
                old(self).spec_stack(),
            )->Ok_0.1 + seq![UC_S] + decimal_text(ns as int, -9));
        }
        Ok(())
    }

    /// Surrenders the finished text; fails while any compound is open.
    pub fn into_string(self) -> (r: Result<String, EncodeError>)
        ensures
            if self.spec_stack().len() == 0 {
                r matches Ok(v) && (self.wf() ==> v@ == vstd::utf8::decode_utf8(self.out()))
            } else if self.spec_stack().last() == Elem::String {
                r == Err::<String, EncodeError>(EncodeError::UnclosedString)
            } else if self.spec_stack().last() == Elem::ByteString {
                r == Err::<String, EncodeError>(EncodeError::UnclosedByteString)
            } else {
                r == Err::<String, EncodeError>(EncodeError::UnclosedList)
            },
    {
        let depth = self.stack.len();
        if depth > 0 {
            return match self.stack[depth - 1] {
                Elem::String => Err(EncodeError::UnclosedString),
                Elem::ByteString => Err(EncodeError::UnclosedByteString),
                Elem::EmptyList | Elem::List => Err(EncodeError::UnclosedList),
            };
        }
        let Encoder { stack: _, buf, stage: _ } = self;
        Ok(crate::text::string_from_utf8(buf))
    }

    /// Views the finished text without surrendering the encoder; fails
    /// while any compound is open.
    pub fn as_str(&self) -> (r: Result<&str, EncodeError>)
        ensures
            if self.spec_stack().len() == 0 {
                r matches Ok(v) && (self.wf() ==> v@ == vstd::utf8::decode_utf8(self.out()))
            } else if self.spec_stack().last() == Elem::String {
                r == Err::<&str, EncodeError>(EncodeError::UnclosedString)
            } else if self.spec_stack().last() == Elem::ByteString {
                r == Err::<&str, EncodeError>(EncodeError::UnclosedByteString)
            } else {
                r == Err::<&str, EncodeError>(EncodeError::UnclosedList)
            },
    {
        let depth = self.stack.len();
        if depth > 0 {
            return match self.stack[depth - 1] {
                Elem::String => Err(EncodeError::UnclosedString),
                Elem::ByteString => Err(EncodeError::UnclosedByteString),
                Elem::EmptyList | Elem::List => Err(EncodeError::UnclosedList),
            };
        }
        Ok(crate::text::str_from_utf8(self.buf.as_slice()))
    }
}

/// Escaping one more byte extends the escaped prefix by that byte's spelling.
proof fn lemma_escape_take_one(s: Seq<u8>, i: int)
    requires
        0 <= i < s.len(),
    ensures
        escape_bytes(s.take(i + 1)) == escape_bytes(s.take(i)) + crate::grammar::esc_byte(s[i]),
    decreases i,
{
    if i == 0 {
        assert(s.take(1) =~= seq![s[0]]);
        assert(s.take(1).skip(1) =~= Seq::<u8>::empty());
        assert(s.take(0) =~= Seq::<u8>::empty());
        assert(escape_bytes(Seq::<u8>::empty()) =~= Seq::<u8>::empty());
        assert(escape_bytes(s.take(1)) =~= crate::grammar::esc_byte(s.take(1)[0]) + escape_bytes(
            s.take(1).skip(1),
        ));
        assert(escape_bytes(s.take(1)) =~= crate::grammar::esc_byte(s[0]));
        assert(escape_bytes(s.take(0)) + crate::grammar::esc_byte(s[0])
            =~= crate::grammar::esc_byte(s[0]));
    } else {
        let t = s.skip(1);
        lemma_escape_take_one(t, i - 1);
        assert(t.take(i) =~= s.take(i + 1).skip(1));
        assert(t.take(i - 1) =~= s.take(i).skip(1));
        assert(t[i - 1] == s[i]);
        assert(escape_bytes(s.take(i + 1)) =~= crate::grammar::esc_byte(s[0]) + escape_bytes(
            s.take(i + 1).skip(1),
        ));
        assert(escape_bytes(s.take(i)) =~= crate::grammar::esc_byte(s[0]) + escape_bytes(
            s.take(i).skip(1),
        ));
        assert(crate::grammar::esc_byte(s[0]) + (escape_bytes(t.take(i - 1))
            + crate::grammar::esc_byte(t[i - 1])) =~= escape_bytes(s.take(i))
            + crate::grammar::esc_byte(s[i]));
    }
}

/// Hex-encoding one more byte extends the hex prefix by that byte's pair.
proof fn lemma_hex_bytes_push(s: Seq<u8>, i: int)
    requires
        0 <= i < s.len(),
    ensures
        hex_bytes(s.take(i + 1)) == hex_bytes(s.take(i)) + hex_pair(s[i]),
    decreases i,
{
    if i == 0 {
        assert(s.take(1) =~= seq![s[0]]);
        assert(s.take(1).skip(1) =~= Seq::<u8>::empty());
        assert(s.take(0) =~= Seq::<u8>::empty());
        assert(hex_bytes(Seq::<u8>::empty()) =~= Seq::<u8>::empty());
        assert(hex_bytes(s.take(1)) =~= hex_pair(s.take(1)[0]) + hex_bytes(s.take(1).skip(1)));
        assert(hex_bytes(s.take(1)) =~= hex_pair(s[0]));
        assert(hex_bytes(s.take(0)) + hex_pair(s[0]) =~= hex_pair(s[0]));
    } else {
        let t = s.skip(1);
        lemma_hex_bytes_push(t, i - 1);
        assert(t.take(i) =~= s.take(i + 1).skip(1));
        assert(t.take(i - 1) =~= s.take(i).skip(1));
        assert(t[i - 1] == s[i]);
        assert(hex_bytes(s.take(i + 1)) =~= hex_pair(s[0]) + hex_bytes(s.take(i + 1).skip(1)));
        assert(hex_bytes(s.take(i)) =~= hex_pair(s[0]) + hex_bytes(s.take(i).skip(1)));
        assert(hex_pair(s[0]) + (hex_bytes(t.take(i - 1)) + hex_pair(t[i - 1])) =~= hex_bytes(
            s.take(i),
        ) + hex_pair(s[i]));
    }
}

} // verus!
