//! The byte-escaping helper behind diagnostic messages: arbitrary bytes
//! become a printable ASCII string, each byte spelled the way
//! `core::ascii::escape_default` spells it.

use vstd::prelude::*;

use crate::grammar::hex_digit;
use crate::grammar::lemma_ascii_seq_valid;

verus! {

/// How one byte is spelled in a diagnostic string: common control bytes by
/// their backslash names, printable ASCII as itself (with `\\`, `'` and
/// `"` escaped), and everything else as `\x` and two lowercase hex digits.
pub open spec fn escape_default_byte(b: u8) -> Seq<u8> {
    if b == 0x09 {
        seq![0x5c, 0x74]
    } else if b == 0x0d {
        seq![0x5c, 0x72]
    } else if b == 0x0a {
        seq![0x5c, 0x6e]
    } else if b == 0x5c {
        seq![0x5c, 0x5c]
    } else if b == 0x27 {
        seq![0x5c, 0x27]
    } else if b == 0x22 {
        seq![0x5c, 0x22]
    } else if 0x20 <= b <= 0x7e {
        seq![b]
    } else {
        seq![0x5c, 0x78, hex_digit(b as int / 16), hex_digit(b as int % 16)]
    }
}

/// A whole buffer, escaped byte for byte.
pub open spec fn escape_default_bytes(s: Seq<u8>) -> Seq<u8>
    decreases s.len(),
{
    if s.len() == 0 {
        Seq::empty()
    } else {
        escape_default_byte(s[0]) + escape_default_bytes(s.skip(1))
    }
}

/// Escaping one more byte extends the escaped prefix by that byte's
/// spelling.
proof fn lemma_escape_default_take_one(s: Seq<u8>, i: int)
    requires
        0 <= i < s.len(),
    ensures
        escape_default_bytes(s.take(i + 1)) == escape_default_bytes(s.take(i))
            + escape_default_byte(s[i]),
    decreases i,
{
    if i == 0 {
        assert(s.take(1) =~= seq![s[0]]);
        assert(s.take(1).skip(1) =~= Seq::<u8>::empty());
        assert(s.take(0) =~= Seq::<u8>::empty());
        assert(escape_default_bytes(Seq::<u8>::empty()) =~= Seq::<u8>::empty());
        assert(escape_default_bytes(s.take(1)) =~= escape_default_byte(s.take(1)[0])
            + escape_default_bytes(s.take(1).skip(1)));
        assert(escape_default_bytes(s.take(1)) =~= escape_default_byte(s[0]));
        assert(escape_default_bytes(s.take(0)) + escape_default_byte(s[0])
            =~= escape_default_byte(s[0]));
    } else {
        let t = s.skip(1);
        lemma_escape_default_take_one(t, i - 1);
        assert(t.take(i) =~= s.take(i + 1).skip(1));
        assert(t.take(i - 1) =~= s.take(i).skip(1));
        assert(t[i - 1] == s[i]);
        assert(escape_default_bytes(s.take(i + 1)) =~= escape_default_byte(s[0])
            + escape_default_bytes(s.take(i + 1).skip(1)));
        assert(escape_default_bytes(s.take(i)) =~= escape_default_byte(s[0])
            + escape_default_bytes(s.take(i).skip(1)));
        assert(escape_default_byte(s[0]) + (escape_default_bytes(t.take(i - 1))
            + escape_default_byte(t[i - 1])) =~= escape_default_bytes(s.take(i))
            + escape_default_byte(s[i]));
    }
}

/// Every escaped spelling is printable ASCII.
proof fn lemma_escape_default_ascii(s: Seq<u8>)
    ensures
        forall|i: int|
            0 <= i < escape_default_bytes(s).len() ==> #[trigger] escape_default_bytes(s)[i]
                < 0x80,
    decreases s.len(),
{
    if s.len() > 0 {
        lemma_escape_default_ascii(s.skip(1));
        assert(escape_default_bytes(s) =~= escape_default_byte(s[0]) + escape_default_bytes(
            s.skip(1),
        ));
    }
}

/// Converts a byte slice into a printable string, escaping each byte the
/// way `core::ascii::escape_default` does.
#[must_use]
pub fn escape_ascii(input: &[u8]) -> (r: String)
    ensures
        r@ == vstd::utf8::decode_utf8(escape_default_bytes(input@)),
{
    let mut buf: Vec<u8> = Vec::new();
    let n = input.len();
    let mut i: usize = 0;
    while i < n
        invariant
            n == input@.len(),
            i <= n,
            buf@ == escape_default_bytes(input@.take(i as int)),
        decreases n - i,
    {
        let b = *vstd::slice::slice_index_get(input, i);
        if b == 0x09 {
            buf.push(0x5c);
            buf.push(0x74);
        } else if b == 0x0d {
            buf.push(0x5c);
            buf.push(0x72);
        } else if b == 0x0a {
            buf.push(0x5c);
            buf.push(0x6e);
        } else if b == 0x5c {
            buf.push(0x5c);
            buf.push(0x5c);
        } else if b == 0x27 {
            buf.push(0x5c);
            buf.push(0x27);
        } else if b == 0x22 {
            buf.push(0x5c);
            buf.push(0x22);
        } else if 0x20 <= b && b <= 0x7e {
            buf.push(b);
        } else {
            buf.push(0x5c);
            buf.push(0x78);
            buf.push(if b / 16 < 10 {
                0x30 + b / 16
            } else {
                0x61 + b / 16 - 10
            });
            buf.push(if b % 16 < 10 {
                0x30 + b % 16
            } else {
                0x61 + b % 16 - 10
            });
        }
        proof {
            lemma_escape_default_take_one(input@, i as int);
            assert(buf@ =~= escape_default_bytes(input@.take(i + 1)));
        }
        i += 1;
    }
    proof {
        assert(input@.take(n as int) =~= input@);
        lemma_escape_default_ascii(input@);
        lemma_ascii_seq_valid(buf@);
    }
    crate::text::string_from_utf8(buf)
}

} // verus!
