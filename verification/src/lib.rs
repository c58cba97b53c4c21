//! A two-way codec for a compact, human-readable, self-delimiting text data
//! format: booleans, grouped integers, fixed-point decimals, quoted strings
//! with a restricted escape set, hex byte strings, nested lists, and a
//! calendar-date / time-of-day / timezone-offset grammar.
//!
//! The decoder consumes a byte slice left to right, one method per grammar
//! production, and rejects every spelling that is not the single canonical
//! encoding.  The encoder appends to a growable buffer, validating structure
//! and numeric ranges before emitting anything.

pub mod date_time;
pub mod decode;
pub mod encode;
pub mod escape;
pub mod grammar;
pub mod laws;
mod text;

pub use encode::DateTimeStage;
pub use encode::Elem;
pub use encode::Encode;
pub use encode::EncodeError;
pub use encode::Encoder;

pub use escape::escape_ascii;

pub use decode::Decode;
pub use decode::DecodeError;
pub use decode::Decoder;
pub use decode::ErrorReason;

pub use date_time::Date;
pub use date_time::DateTimeTzOffset;
pub use date_time::Time;
pub use date_time::TzOffset;
