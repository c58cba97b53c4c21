//! Round-trip laws: decoding the canonical text of a value yields that
//! value back, with the whole text consumed.
//!
//! Each law is stated over the same specification functions that the
//! encoder's and decoder's contracts use: the `*_text` functions give the
//! bytes the encoder emits, and the `spec_consume_*` functions give what
//! the decoder returns on them.

use vstd::prelude::*;

use crate::decode::ErrorReason;
use crate::grammar::digits;
use crate::grammar::digit_val;
use crate::grammar::int_text;
use crate::grammar::int_text_nat;
use crate::grammar::is_digit;
use crate::grammar::pad3;
use crate::date_time::Date;
use crate::date_time::DateTimeTzOffset;
use crate::date_time::Time;
use crate::date_time::TzOffset;
use crate::grammar::date_text;
use crate::grammar::day_text;
use crate::grammar::dtz_text;
use crate::grammar::esc_byte;
use crate::grammar::has2;
use crate::grammar::hour_text;
use crate::grammar::minute_text;
use crate::grammar::month_text;
use crate::grammar::ms_text;
use crate::grammar::ns_text;
use crate::grammar::pad2;

use crate::grammar::second_text;
use crate::grammar::spec_consume_date_time_tz;
use crate::grammar::spec_date;
use crate::grammar::spec_day;
use crate::grammar::spec_dtz_after_date;
use crate::grammar::spec_dtz_after_time;
use crate::grammar::spec_hour;
use crate::grammar::spec_microsecond;
use crate::grammar::spec_millisecond;
use crate::grammar::spec_minute;
use crate::grammar::spec_month;
use crate::grammar::spec_nanosecond;
use crate::grammar::spec_second;
use crate::grammar::spec_time;
use crate::grammar::spec_time_after_minute;
use crate::grammar::spec_time_subsec;
use crate::grammar::spec_tz;
use crate::grammar::spec_week;
use crate::grammar::spec_week_day;
use crate::grammar::spec_year;
use crate::grammar::time_text;
use crate::grammar::tz_or_end;
use crate::grammar::tz_text;
use crate::grammar::us_text;
use crate::grammar::val2;
use crate::grammar::week_text;
use crate::grammar::weekday_text;
use crate::grammar::year_text;
use crate::grammar::COLON;
use crate::grammar::PERIOD;
use crate::grammar::PLUS;
use crate::grammar::UC_D;
use crate::grammar::UC_W;
use crate::grammar::UC_Z;
use crate::grammar::TILDE;
use crate::grammar::CLOSE_BRACKET;
use crate::grammar::COMMA;
use crate::grammar::escape_bytes;
use crate::grammar::find_quote;
use crate::grammar::hex_digit;
use crate::grammar::hex_val;
use crate::grammar::is_lower_hex;
use crate::grammar::must_escape;
use crate::grammar::spec_close_item;
use crate::grammar::spec_consume_string;
use crate::grammar::spec_string_value;
use crate::grammar::spec_unescape;
use crate::grammar::BACKSLASH;
use crate::grammar::QUOTE;
use crate::grammar::spec_consume_bool;
use crate::grammar::spec_consume_integer;
use crate::grammar::spec_int_scan;
use crate::grammar::spec_integer_value;
use crate::grammar::D0;
use crate::grammar::HYPHEN;
use crate::grammar::UC_F;
use crate::grammar::UC_T;
use crate::grammar::UNDERSCORE;

verus! {

/// Decoding the text the encoder emits for a boolean yields that boolean,
/// consuming exactly that text.
pub proof fn lemma_bool_round_trip(v: bool)
    ensures
        spec_consume_bool(
            if v {
                seq![UC_T]
            } else {
                seq![UC_F]
            },
            0,
        ) == Ok::<(bool, int), ErrorReason>((v, 1)),
{
    let s: Seq<u8> = if v {
        seq![UC_T]
    } else {
        seq![UC_F]
    };
    assert(s.skip(1) =~= Seq::<u8>::empty());
    assert(spec_close_item(s.skip(1), 0, ErrorReason::MalformedBool) == Ok::<int, ErrorReason>(0));
}

/// The reverse direction for booleans: an input that decodes as a
/// boolean at top level was exactly the canonical spelling, so re-encoding
/// the value reproduces the input byte for byte.
pub proof fn lemma_bool_canonical(s: Seq<u8>)
    requires
        spec_consume_bool(s, 0) is Ok,
    ensures
        s == if spec_consume_bool(s, 0)->Ok_0.0 {
            seq![UC_T]
        } else {
            seq![UC_F]
        },
{
    assert(s.len() == 1);
    assert(s =~= seq![s[0]]);
}

/// Every byte of a digit string is a digit, and the first is nonzero
/// whenever the number needs more than one digit.
proof fn lemma_digits_shape(n: nat)
    ensures
        digits(n).len() >= 1,
        forall|k: int| 0 <= k < digits(n).len() ==> is_digit(#[trigger] digits(n)[k]),
        n < 10 ==> digits(n) =~= seq![(D0 + n) as u8],
        n >= 10 ==> digits(n)[0] != D0,
        n >= 10 ==> digits(n).len() >= 2,
        n < 10 ==> digits(n).len() == 1,
        10 <= n < 100 ==> digits(n).len() == 2,
        100 <= n < 1000 ==> digits(n).len() == 3,
        1000 <= n < 10000 ==> digits(n).len() == 4,
    decreases n,
{
    if n >= 10 {
        lemma_digits_shape(n / 10);
        assert(digits(n) =~= digits(n / 10) + seq![(D0 + n % 10) as u8]);
        assert(digits(n)[0] == digits(n / 10)[0]);
        if n / 10 < 10 {
            assert(digits(n / 10) =~= seq![(D0 + n / 10) as u8]);
            assert(n / 10 >= 1);
        }
    }
}

/// The first byte of a grouped digit run is a digit.
proof fn lemma_int_text_nat_shape(n: nat)
    ensures
        int_text_nat(n).len() >= 1,
        is_digit(int_text_nat(n)[0]),
    decreases n,
{
    if n < 1000 {
        lemma_digits_shape(n);
    } else {
        lemma_int_text_nat_shape(n / 1000);
        assert(int_text_nat(n) =~= int_text_nat(n / 1000) + seq![UNDERSCORE] + pad3(n % 1000));
        assert(int_text_nat(n)[0] == int_text_nat(n / 1000)[0]);
    }
}

/// Scanning one to three canonical digits carries the accumulator from
/// zero to the signed value, with no underscore seen.
#[verifier::rlimit(100)]
#[verifier::spinoff_prover]
proof fn lemma_scan_digits_small(s: Seq<u8>, i: int, n: nat, sign: int)
    requires
        sign == 1 || sign == -1,
        n < 1000,
        0 <= i,
        i + digits(n).len() <= s.len(),
        s.subrange(i, i + digits(n).len() as int) == digits(n),
    ensures
        spec_int_scan(s, i, sign, false, 0, 0) == spec_int_scan(
            s,
            i + digits(n).len() as int,
            sign,
            false,
            if n < 10 {
                1int
            } else if n < 100 {
                2
            } else {
                3
            },
            sign * n,
        ),
{
    lemma_digits_shape(n);
    let txt = digits(n);
    assert(forall|k: int|
        0 <= k < txt.len() ==> #[trigger] s.subrange(i, i + txt.len() as int)[k] == s[i + k]);
    assert(forall|k: int| 0 <= k < txt.len() ==> #[trigger] s[i + k] == txt[k]);
    assert(n == 10 * (n / 10) + n % 10);
    if n < 10 {
        assert(txt[0] == (D0 + n) as u8);
        assert(s[i + 0] == txt[0]);
        assert(s[i] == (D0 + n) as u8);
        assert(digit_val(s[i]) == n);
        assert(i < s.len() && is_digit(s[i]));
        assert(0int * 10 + sign * digit_val(s[i]) == sign * n);
        assert(spec_int_scan(s, i, sign, false, 0, 0) == spec_int_scan(
            s,
            i + 1,
            sign,
            false,
            1,
            sign * n,
        ));
    } else if n < 100 {
        assert(digits(n) =~= digits(n / 10) + seq![(D0 + n % 10) as u8]);
        assert(digits(n / 10) =~= seq![(D0 + n / 10) as u8]);
        assert(s[i] == (D0 + n / 10) as u8 && s[i + 1] == (D0 + n % 10) as u8);
        assert(sign * (n / 10) != 0);
        assert(spec_int_scan(s, i, sign, false, 0, 0) == spec_int_scan(
            s,
            i + 1,
            sign,
            false,
            1,
            sign * (n / 10),
        ));
        assert(sign * (n / 10) * 10 + sign * (n % 10) == sign * n && -1000 <= sign * (n / 10) * 10
            <= 1000) by (nonlinear_arith)
            requires
                sign == 1 || sign == -1,
                n == 10 * (n / 10) + n % 10,
                n < 1000,
        ;
        assert(spec_int_scan(s, i + 1, sign, false, 1, sign * (n / 10)) == spec_int_scan(
            s,
            i + 2,
            sign,
            false,
            2,
            sign * n,
        ));
    } else {
        assert(digits(n) =~= digits(n / 10) + seq![(D0 + n % 10) as u8]);
        assert(digits(n / 10) =~= digits(n / 100) + seq![(D0 + (n / 10) % 10) as u8]);
        assert(digits(n / 100) =~= seq![(D0 + n / 100) as u8]);
        assert(s[i] == (D0 + n / 100) as u8);
        assert(s[i + 1] == (D0 + (n / 10) % 10) as u8);
        assert(s[i + 2] == (D0 + n % 10) as u8);
        assert(sign * (n / 100) != 0);
        assert(spec_int_scan(s, i, sign, false, 0, 0) == spec_int_scan(
            s,
            i + 1,
            sign,
            false,
            1,
            sign * (n / 100),
        ));
        assert(n / 10 == 10 * (n / 100) + (n / 10) % 10);
        assert(sign * (n / 100) * 10 + sign * ((n / 10) % 10) == sign * (n / 10) && -100 <= sign
            * (n / 100) * 10 <= 100) by (nonlinear_arith)
            requires
                sign == 1 || sign == -1,
                n / 10 == 10 * (n / 100) + (n / 10) % 10,
                n < 1000,
        ;
        assert(sign * (n / 10) != 0);
        assert(spec_int_scan(s, i + 1, sign, false, 1, sign * (n / 100)) == spec_int_scan(
            s,
            i + 2,
            sign,
            false,
            2,
            sign * (n / 10),
        ));
        assert(sign * (n / 10) * 10 + sign * (n % 10) == sign * n && -1000 <= sign * (n / 10) * 10
            <= 1000) by (nonlinear_arith)
            requires
                sign == 1 || sign == -1,
                n == 10 * (n / 10) + n % 10,
                n < 1000,
        ;
        assert(spec_int_scan(s, i + 2, sign, false, 2, sign * (n / 10)) == spec_int_scan(
            s,
            i + 3,
            sign,
            false,
            3,
            sign * n,
        ));
    }
}

/// Scanning a grouped digit run carries the accumulator from zero to the
/// run's signed value, leaving the underscore flag and trailing group
/// width the run's structure dictates.
#[verifier::rlimit(100)]
#[verifier::spinoff_prover]
proof fn lemma_scan_int_text_nat(s: Seq<u8>, i: int, n: nat, sign: int)
    requires
        sign == 1 || sign == -1,
        0 <= i,
        i + int_text_nat(n).len() <= s.len(),
        s.subrange(i, i + int_text_nat(n).len() as int) == int_text_nat(n),
        i64::MIN <= sign * n <= i64::MAX,
    ensures
        spec_int_scan(s, i, sign, false, 0, 0) == spec_int_scan(
            s,
            i + int_text_nat(n).len() as int,
            sign,
            n >= 1000,
            if n < 10 {
                1int
            } else if n < 100 {
                2
            } else {
                3
            },
            sign * n,
        ),
    decreases n,
{
    let txt = int_text_nat(n);
    assert(forall|k: int|
        0 <= k < txt.len() ==> #[trigger] s.subrange(i, i + txt.len() as int)[k] == s[i + k]);
    assert(forall|k: int| 0 <= k < txt.len() ==> #[trigger] s[i + k] == txt[k]);
    if n < 1000 {
        assert(txt =~= digits(n));
        assert(s.subrange(i, i + digits(n).len() as int) =~= digits(n));
        lemma_scan_digits_small(s, i, n, sign);
    } else {
        let q = n / 1000;
        let r = n % 1000;
        let prefix = int_text_nat(q);
        let plen = prefix.len() as int;
        assert(txt =~= prefix + seq![UNDERSCORE] + pad3(r));
        assert(txt.len() == plen + 4);
        assert(s.subrange(i, i + plen) =~= prefix) by {
            assert(forall|k: int| 0 <= k < plen ==> #[trigger] s[i + k] == prefix[k]);
        }
        assert(q >= 1 && q * 1000 + r == n && 0 <= r < 1000);
        assert(sign * q != 0 && i64::MIN <= sign * q <= i64::MAX) by (nonlinear_arith)
            requires
                sign == 1 || sign == -1,
                q >= 1,
                q * 1000 + r == n,
                0 <= r < 1000,
                i64::MIN <= sign * n <= i64::MAX,
        ;
        lemma_scan_int_text_nat(s, i, q, sign);
        let gq: int = if q < 10 {
            1
        } else if q < 100 {
            2
        } else {
            3
        };
        assert(s[i + plen] == txt[plen] && txt[plen] == UNDERSCORE);
        assert(spec_int_scan(s, i + plen, sign, q >= 1000, gq, sign * q) == spec_int_scan(
            s,
            i + plen + 1,
            sign,
            true,
            0,
            sign * q,
        ));
        let d0 = (r / 100) as int;
        let d1 = ((r / 10) % 10) as int;
        let d2 = (r % 10) as int;
        assert(s[i + plen + 1] == txt[plen + 1] && txt[plen + 1] == (D0 + d0) as u8);
        assert(s[i + plen + 2] == txt[plen + 2] && txt[plen + 2] == (D0 + d1) as u8);
        assert(s[i + plen + 3] == txt[plen + 3] && txt[plen + 3] == (D0 + d2) as u8);
        assert(r == 100 * d0 + 10 * d1 + d2);
        let v1 = sign * (q * 10 + d0);
        let v2 = sign * (q * 100 + d0 * 10 + d1);
        assert(sign * q * 10 + sign * d0 == v1 && v1 != 0 && i64::MIN <= v1 <= i64::MAX && v1 * 10
            + sign * d1 == v2 && v2 != 0 && i64::MIN <= v2 <= i64::MAX && v2 * 10 + sign * d2
            == sign * n) by (nonlinear_arith)
            requires
                sign == 1 || sign == -1,
                q >= 1,
                q * 1000 + r == n,
                0 <= r < 1000,
                r == 100 * d0 + 10 * d1 + d2,
                0 <= d0 <= 9,
                0 <= d1 <= 9,
                0 <= d2 <= 9,
                v1 == sign * (q * 10 + d0),
                v2 == sign * (q * 100 + d0 * 10 + d1),
                i64::MIN <= sign * n <= i64::MAX,
        ;
        assert(spec_int_scan(s, i + plen + 1, sign, true, 0, sign * q) == spec_int_scan(
            s,
            i + plen + 2,
            sign,
            true,
            1,
            v1,
        ));
        assert(spec_int_scan(s, i + plen + 2, sign, true, 1, v1) == spec_int_scan(
            s,
            i + plen + 3,
            sign,
            true,
            2,
            v2,
        ));
        assert(spec_int_scan(s, i + plen + 3, sign, true, 2, v2) == spec_int_scan(
            s,
            i + plen + 4,
            sign,
            true,
            3,
            sign * n,
        ));
    }
}

/// Splits a scan at any point it runs past: the truncated input scans to
/// the same intermediate state, and the full scan continues from there.
proof fn lemma_scan_trunc(
    s: Seq<u8>,
    i: int,
    j: int,
    sign: int,
    seen_us: bool,
    group: int,
    value: int,
)
    requires
        0 <= i <= j <= s.len(),
        spec_int_scan(s, i, sign, seen_us, group, value) is Ok,
        spec_int_scan(s, i, sign, seen_us, group, value)->Ok_0.3 >= j,
    ensures
        spec_int_scan(s.take(j), i, sign, seen_us, group, value) is Ok,
        spec_int_scan(s.take(j), i, sign, seen_us, group, value)->Ok_0.3 == j,
        ({
            let (mv, ms, mg, _) = spec_int_scan(s.take(j), i, sign, seen_us, group, value)->Ok_0;
            spec_int_scan(s, j, sign, ms, mg, mv) == spec_int_scan(
                s,
                i,
                sign,
                seen_us,
                group,
                value,
            )
        }),
    decreases j - i,
{
    let t = s.take(j);
    assert(t.len() == j);
    if i == j {
        assert(spec_int_scan(t, i, sign, seen_us, group, value) == Ok::<
            (int, bool, int, int),
            ErrorReason,
        >((value, seen_us, group, i)));
    } else {
        assert(t[i] == s[i]);
        let end = spec_int_scan(s, i, sign, seen_us, group, value)->Ok_0.3;
        assert(end > i);
        assert(is_digit(s[i]) || s[i] == UNDERSCORE);
        if is_digit(s[i]) {
            let next = value * 10 + sign * digit_val(s[i]);
            assert(spec_int_scan(s, i, sign, seen_us, group, value) == spec_int_scan(
                s,
                i + 1,
                sign,
                seen_us,
                group + 1,
                next,
            ));
            assert(spec_int_scan(t, i, sign, seen_us, group, value) == spec_int_scan(
                t,
                i + 1,
                sign,
                seen_us,
                group + 1,
                next,
            ));
            lemma_scan_trunc(s, i + 1, j, sign, seen_us, group + 1, next);
        } else {
            assert(spec_int_scan(s, i, sign, seen_us, group, value) == spec_int_scan(
                s,
                i + 1,
                sign,
                true,
                0,
                value,
            ));
            assert(spec_int_scan(t, i, sign, seen_us, group, value) == spec_int_scan(
                t,
                i + 1,
                sign,
                true,
                0,
                value,
            ));
            lemma_scan_trunc(s, i + 1, j, sign, true, 0, value);
        }
    }
}

/// Shape facts a successful scan maintains: the accumulator keeps the
/// sign's polarity, never returns to zero once nonzero, is nonzero
/// whenever an underscore was seen, and counts every byte as a digit
/// while no underscore has appeared.
proof fn lemma_scan_shape(s: Seq<u8>, i: int, sign: int, seen_us: bool, group: int, value: int)
    requires
        sign == 1 || sign == -1,
        sign == 1 ==> value >= 0,
        sign == -1 ==> value <= 0,
        seen_us ==> value != 0,
        spec_int_scan(s, i, sign, seen_us, group, value) is Ok,
    ensures
        ({
            let (v, se, g, end) = spec_int_scan(s, i, sign, seen_us, group, value)->Ok_0;
            &&& i <= end <= s.len() || end == i
            &&& sign == 1 ==> v >= 0
            &&& sign == -1 ==> v <= 0
            &&& se ==> v != 0
            &&& value != 0 ==> v != 0
            &&& !se ==> !seen_us && g == group + (end - i)
            &&& seen_us ==> se
            &&& group >= 0 ==> g >= 0
            &&& end >= i
        }),
    decreases s.len() - i,
{
    if i < 0 || i >= s.len() || !(is_digit(s[i]) || s[i] == UNDERSCORE) {
    } else if is_digit(s[i]) {
        let next = value * 10 + sign * digit_val(s[i]);
        assert(sign == 1 ==> next >= value * 10 >= 0);
        assert(sign == -1 ==> next <= value * 10 <= 0);
        assert(value != 0 ==> next != 0) by (nonlinear_arith)
            requires
                sign == 1 || sign == -1,
                next == value * 10 + sign * digit_val(s[i]),
                0 <= digit_val(s[i]) <= 9,
                sign == 1 ==> value >= 0,
                sign == -1 ==> value <= 0,
        ;
        lemma_scan_shape(s, i + 1, sign, seen_us, group + 1, next);
    } else {
        lemma_scan_shape(s, i + 1, sign, true, 0, value);
    }
}

/// Peels the last byte of a fully consumed scan whose trailing group is
/// nonempty: that byte is a digit, and the shorter input scans to the
/// state just before it.
proof fn lemma_scan_last_digit(s: Seq<u8>, start: int, sign: int)
    requires
        sign == 1 || sign == -1,
        0 <= start < s.len(),
        spec_int_scan(s, start, sign, false, 0, 0) is Ok,
        spec_int_scan(s, start, sign, false, 0, 0)->Ok_0.3 == s.len(),
        spec_int_scan(s, start, sign, false, 0, 0)->Ok_0.2 >= 1,
    ensures
        is_digit(s[s.len() - 1]),
        spec_int_scan(s.take(s.len() - 1), start, sign, false, 0, 0) is Ok,
        ({
            let (v, se, g, _) = spec_int_scan(s, start, sign, false, 0, 0)->Ok_0;
            let (mv, ms, mg, me) = spec_int_scan(
                s.take(s.len() - 1),
                start,
                sign,
                false,
                0,
                0,
            )->Ok_0;
            &&& me == s.len() - 1
            &&& ms == se
            &&& mg == g - 1
            &&& v == mv * 10 + sign * digit_val(s[s.len() - 1])
            &&& !(mv == 0 && mg >= 1)
        }),
{
    let L = s.len() as int;
    lemma_scan_trunc(s, start, L - 1, sign, false, 0, 0);
    let (mv, ms, mg, me) = spec_int_scan(s.take(L - 1), start, sign, false, 0, 0)->Ok_0;
    let b = s[L - 1];
    assert(is_digit(b) || b == UNDERSCORE);
    if b == UNDERSCORE {
        assert(ms && mg != 3 ==> spec_int_scan(s, L - 1, sign, ms, mg, mv) is Err);
        assert(!ms && (mv == 0 || mg > 3) ==> spec_int_scan(s, L - 1, sign, ms, mg, mv) is Err);
        assert(spec_int_scan(s, L - 1, sign, ms, mg, mv) == spec_int_scan(
            s,
            L,
            sign,
            true,
            0,
            mv,
        ));
        assert(spec_int_scan(s, L, sign, true, 0, mv) == Ok::<
            (int, bool, int, int),
            ErrorReason,
        >((mv, true, 0, L)));
        assert(spec_int_scan(s, start, sign, false, 0, 0)->Ok_0.2 == 0);
        assert(false);
    }
    assert(!(i64::MIN <= mv * 10 <= i64::MAX) ==> spec_int_scan(s, L - 1, sign, ms, mg, mv)
        is Err);
    assert(i64::MIN <= mv * 10 <= i64::MAX);
    let next = mv * 10 + sign * digit_val(b);
    assert(!(i64::MIN <= next <= i64::MAX) ==> spec_int_scan(s, L - 1, sign, ms, mg, mv) is Err);
    assert(mv == 0 && mg >= 1 ==> spec_int_scan(s, L - 1, sign, ms, mg, mv) is Err);
    assert(spec_int_scan(s, L - 1, sign, ms, mg, mv) == spec_int_scan(
        s,
        L,
        sign,
        ms,
        mg + 1,
        next,
    ));
    assert(spec_int_scan(s, L, sign, ms, mg + 1, next) == Ok::<
        (int, bool, int, int),
        ErrorReason,
    >((next, ms, mg + 1, L)));
}

/// Peels the underscore that ends a fully consumed scan whose trailing
/// group is empty: the shorter input scans to a state that satisfies the
/// separator's own grouping conditions, with the value unchanged.
proof fn lemma_scan_last_us(s: Seq<u8>, start: int, sign: int)
    requires
        sign == 1 || sign == -1,
        0 <= start < s.len(),
        spec_int_scan(s, start, sign, false, 0, 0) is Ok,
        spec_int_scan(s, start, sign, false, 0, 0)->Ok_0.3 == s.len(),
        spec_int_scan(s, start, sign, false, 0, 0)->Ok_0.2 == 0,
        spec_int_scan(s, start, sign, false, 0, 0)->Ok_0.1,
    ensures
        s[s.len() - 1] == UNDERSCORE,
        spec_int_scan(s.take(s.len() - 1), start, sign, false, 0, 0) is Ok,
        ({
            let v = spec_int_scan(s, start, sign, false, 0, 0)->Ok_0.0;
            let (mv, ms, mg, me) = spec_int_scan(
                s.take(s.len() - 1),
                start,
                sign,
                false,
                0,
                0,
            )->Ok_0;
            &&& me == s.len() - 1
            &&& mv == v
            &&& mv != 0
            &&& (ms ==> mg == 3)
            &&& (!ms ==> mg <= 3)
        }),
{
    let L = s.len() as int;
    lemma_scan_trunc(s, start, L - 1, sign, false, 0, 0);
    let (mv, ms, mg, me) = spec_int_scan(s.take(L - 1), start, sign, false, 0, 0)->Ok_0;
    let b = s[L - 1];
    assert(is_digit(b) || b == UNDERSCORE);
    if is_digit(b) {
        assert(!(i64::MIN <= mv * 10 <= i64::MAX) ==> spec_int_scan(s, L - 1, sign, ms, mg, mv)
            is Err);
        assert(i64::MIN <= mv * 10 <= i64::MAX);
        let next = mv * 10 + sign * digit_val(b);
        assert(!(i64::MIN <= next <= i64::MAX) ==> spec_int_scan(s, L - 1, sign, ms, mg, mv)
            is Err);
        assert(mv == 0 && mg >= 1 ==> spec_int_scan(s, L - 1, sign, ms, mg, mv) is Err);
        assert(spec_int_scan(s, L - 1, sign, ms, mg, mv) == spec_int_scan(
            s,
            L,
            sign,
            ms,
            mg + 1,
            next,
        ));
        assert(spec_int_scan(s, L, sign, ms, mg + 1, next) == Ok::<
            (int, bool, int, int),
            ErrorReason,
        >((next, ms, mg + 1, L)));
        lemma_scan_shape(s.take(L - 1), start, sign, false, 0, 0);
        assert(mg >= 0);
        assert(spec_int_scan(s, start, sign, false, 0, 0)->Ok_0.2 == mg + 1);
        assert(false);
    }
    assert(ms && mg != 3 ==> spec_int_scan(s, L - 1, sign, ms, mg, mv) is Err);
    assert(!ms && (mv == 0 || mg > 3) ==> spec_int_scan(s, L - 1, sign, ms, mg, mv) is Err);
    assert(spec_int_scan(s, L - 1, sign, ms, mg, mv) == spec_int_scan(s, L, sign, true, 0, mv));
    assert(spec_int_scan(s, L, sign, true, 0, mv) == Ok::<(int, bool, int, int), ErrorReason>(
        (mv, true, 0, L),
    ));
    lemma_scan_shape(s.take(L - 1), start, sign, false, 0, 0);
}

/// A fully consumed scan that never met an underscore read one to three
/// digits spelling its value's magnitude without leading zeros.
#[verifier::rlimit(100)]
#[verifier::spinoff_prover]
proof fn lemma_scan_canonical_nous(s: Seq<u8>, start: int, sign: int)
    requires
        sign == 1 || sign == -1,
        0 <= start <= s.len(),
        spec_int_scan(s, start, sign, false, 0, 0) is Ok,
        ({
            let (v, se, g, end) = spec_int_scan(s, start, sign, false, 0, 0)->Ok_0;
            &&& end == s.len()
            &&& !(v == 0 && g == 0)
            &&& !se
            &&& g <= 3
        }),
    ensures
        ({
            let v = spec_int_scan(s, start, sign, false, 0, 0)->Ok_0.0;
            s.skip(start) == int_text_nat(crate::grammar::abs(v) as nat)
        }),
{
    let (v, se, g, end) = spec_int_scan(s, start, sign, false, 0, 0)->Ok_0;
    let L = s.len() as int;
    lemma_scan_shape(s, start, sign, false, 0, 0);
    assert(g == L - start);
    assert(g >= 1);
    assert(is_digit(s[start]) || s[start] == UNDERSCORE);
    if s[start] == UNDERSCORE {
        assert(spec_int_scan(s, start, sign, false, 0, 0) is Err);
        assert(false);
    }
    let d0 = digit_val(s[start]);
    assert(0 <= d0 <= 9);
    assert(spec_int_scan(s, start, sign, false, 0, 0) == spec_int_scan(
        s,
        start + 1,
        sign,
        false,
        1,
        sign * d0,
    ));
    if g == 1 {
        assert(v == sign * d0);
        assert(crate::grammar::abs(v) == d0) by (nonlinear_arith)
            requires
                sign == 1 || sign == -1,
                v == sign * d0,
                0 <= d0 <= 9,
        ;
        assert(int_text_nat(d0 as nat) =~= seq![(D0 + d0) as u8]);
        assert(s[start] == (D0 + d0) as u8);
        assert(s.skip(start) =~= seq![s[start]]);
    } else {
        assert(L - start >= 2);
        assert(is_digit(s[start + 1]) || s[start + 1] == UNDERSCORE);
        if s[start + 1] == UNDERSCORE {
            lemma_scan_shape(s, start + 2, sign, true, 0, sign * d0);
            assert(sign * d0 == 0 ==> spec_int_scan(s, start + 1, sign, false, 1, sign * d0)
                is Err);
            assert(spec_int_scan(s, start + 1, sign, false, 1, sign * d0) == spec_int_scan(
                s,
                start + 2,
                sign,
                true,
                0,
                sign * d0,
            ));
            assert(se);
            assert(false);
        }
        let d1 = digit_val(s[start + 1]);
        assert(0 <= d1 <= 9);
        assert(sign * d0 == 0 ==> spec_int_scan(s, start + 1, sign, false, 1, sign * d0) is Err);
        assert(sign * d0 != 0);
        assert(d0 >= 1);
        let v1 = sign * d0 * 10 + sign * d1;
        assert(v1 == sign * (10 * d0 + d1) && -99 <= sign * d0 * 10 <= 99) by (nonlinear_arith)
            requires
                sign == 1 || sign == -1,
                v1 == sign * d0 * 10 + sign * d1,
                0 <= d0 <= 9,
                0 <= d1 <= 9,
        ;
        assert(spec_int_scan(s, start + 1, sign, false, 1, sign * d0) == spec_int_scan(
            s,
            start + 2,
            sign,
            false,
            2,
            v1,
        ));
        if g == 2 {
            assert(v == v1);
            let n = 10 * d0 + d1;
            assert(crate::grammar::abs(v) == n) by (nonlinear_arith)
                requires
                    sign == 1 || sign == -1,
                    v == sign * n,
                    0 <= n,
            ;
            assert(10 <= n <= 99);
            assert(n / 10 == d0 && n % 10 == d1);
            assert(digits(n as nat) =~= digits((n as nat) / 10) + seq![(D0 + n % 10) as u8]);
            assert(digits((n as nat) / 10) =~= seq![(D0 + n / 10) as u8]);
            assert(int_text_nat(n as nat) =~= seq![(D0 + d0) as u8, (D0 + d1) as u8]);
            assert(s[start] == (D0 + d0) as u8 && s[start + 1] == (D0 + d1) as u8);
            assert(s.skip(start) =~= seq![s[start], s[start + 1]]);
        } else {
            assert(g == 3);
            assert(L - start >= 3);
            assert(is_digit(s[start + 2]) || s[start + 2] == UNDERSCORE);
            if s[start + 2] == UNDERSCORE {
                lemma_scan_shape(s, start + 3, sign, true, 0, v1);
                assert(v1 == 0 ==> spec_int_scan(s, start + 2, sign, false, 2, v1) is Err);
                assert(spec_int_scan(s, start + 2, sign, false, 2, v1) == spec_int_scan(
                    s,
                    start + 3,
                    sign,
                    true,
                    0,
                    v1,
                ));
                assert(se);
                assert(false);
            }
            let d2 = digit_val(s[start + 2]);
            assert(0 <= d2 <= 9);
            let v2 = v1 * 10 + sign * d2;
            assert(v2 == sign * (100 * d0 + 10 * d1 + d2) && -999 <= v1 * 10 <= 999) by (
            nonlinear_arith)
                requires
                    sign == 1 || sign == -1,
                    v1 == sign * (10 * d0 + d1),
                    v2 == v1 * 10 + sign * d2,
                    0 <= d0 <= 9,
                    0 <= d1 <= 9,
                    0 <= d2 <= 9,
            ;
            assert(spec_int_scan(s, start + 2, sign, false, 2, v1) == spec_int_scan(
                s,
                start + 3,
                sign,
                false,
                3,
                v2,
            ));
            assert(v == v2);
            let n = 100 * d0 + 10 * d1 + d2;
            assert(crate::grammar::abs(v) == n) by (nonlinear_arith)
                requires
                    sign == 1 || sign == -1,
                    v == sign * n,
                    0 <= n,
            ;
            assert(100 <= n <= 999);
            assert(n / 100 == d0 && (n / 10) % 10 == d1 && n % 10 == d2) by (nonlinear_arith)
                requires
                    n == 100 * d0 + 10 * d1 + d2,
                    1 <= d0 <= 9,
                    0 <= d1 <= 9,
                    0 <= d2 <= 9,
            ;
            assert(digits(n as nat) =~= digits((n as nat) / 10) + seq![(D0 + n % 10) as u8]);
            assert(digits((n as nat) / 10) =~= digits((n as nat) / 100) + seq![
                (D0 + (n / 10) % 10) as u8,
            ]);
            assert(digits((n as nat) / 100) =~= seq![(D0 + n / 100) as u8]);
            assert(int_text_nat(n as nat) =~= seq![
                (D0 + d0) as u8,
                (D0 + d1) as u8,
                (D0 + d2) as u8,
            ]);
            assert(s[start] == (D0 + d0) as u8 && s[start + 1] == (D0 + d1) as u8 && s[start + 2]
                == (D0 + d2) as u8);
            assert(s.skip(start) =~= seq![s[start], s[start + 1], s[start + 2]]);
        }
    }
}

/// A fully consumed, check-passing scan read exactly the canonical
/// grouped text of its value's magnitude.
#[verifier::rlimit(100)]
#[verifier::spinoff_prover]
proof fn lemma_scan_canonical(s: Seq<u8>, start: int, sign: int)
    requires
        sign == 1 || sign == -1,
        0 <= start <= s.len(),
        spec_int_scan(s, start, sign, false, 0, 0) is Ok,
        ({
            let (v, se, g, end) = spec_int_scan(s, start, sign, false, 0, 0)->Ok_0;
            &&& end == s.len()
            &&& !(v == 0 && g == 0)
            &&& (se ==> g == 3)
            &&& (!se ==> g <= 3)
        }),
    ensures
        ({
            let v = spec_int_scan(s, start, sign, false, 0, 0)->Ok_0.0;
            s.skip(start) == int_text_nat(crate::grammar::abs(v) as nat)
        }),
    decreases s.len(),
{
    let (v, se, g, end) = spec_int_scan(s, start, sign, false, 0, 0)->Ok_0;
    let L = s.len() as int;
    if !se {
        lemma_scan_canonical_nous(s, start, sign);
    } else {
        assert(L > start);
        lemma_scan_last_digit(s, start, sign);
        let s1 = s.take(L - 1);
        let d2 = digit_val(s[L - 1]);
        let (v1, se1, g1, _) = spec_int_scan(s1, start, sign, false, 0, 0)->Ok_0;
        assert(se1 && g1 == 2 && v == v1 * 10 + sign * d2);
        assert(s1.len() > start) by {
            if s1.len() == start {
                assert(spec_int_scan(s1, start, sign, false, 0, 0) == Ok::<
                    (int, bool, int, int),
                    ErrorReason,
                >((0, false, 0, start)));
            }
        }
        lemma_scan_last_digit(s1, start, sign);
        let s2 = s1.take(L - 2);
        let d1 = digit_val(s1[L - 2]);
        assert(s1[L - 2] == s[L - 2]);
        let (v2, se2, g2, _) = spec_int_scan(s2, start, sign, false, 0, 0)->Ok_0;
        assert(se2 && g2 == 1 && v1 == v2 * 10 + sign * d1);
        assert(s2.len() > start) by {
            if s2.len() == start {
                assert(spec_int_scan(s2, start, sign, false, 0, 0) == Ok::<
                    (int, bool, int, int),
                    ErrorReason,
                >((0, false, 0, start)));
            }
        }
        lemma_scan_last_digit(s2, start, sign);
        let s3 = s2.take(L - 3);
        let d0 = digit_val(s2[L - 3]);
        assert(s2[L - 3] == s[L - 3]);
        let (v3, se3, g3, _) = spec_int_scan(s3, start, sign, false, 0, 0)->Ok_0;
        assert(se3 && g3 == 0 && v2 == v3 * 10 + sign * d0);
        assert(s3.len() > start) by {
            if s3.len() == start {
                assert(spec_int_scan(s3, start, sign, false, 0, 0) == Ok::<
                    (int, bool, int, int),
                    ErrorReason,
                >((0, false, 0, start)));
            }
        }
        lemma_scan_last_us(s3, start, sign);
        let s4 = s3.take(L - 4);
        assert(s3[L - 4] == s[L - 4] && s[L - 4] == UNDERSCORE);
        let (v4, se4, g4, _) = spec_int_scan(s4, start, sign, false, 0, 0)->Ok_0;
        assert(v4 == v3 && v4 != 0 && (se4 ==> g4 == 3) && (!se4 ==> g4 <= 3));
        assert(s4 =~= s.take(L - 4));
        lemma_scan_canonical(s4, start, sign);
        let m = crate::grammar::abs(v4);
        assert(s4.skip(start) == int_text_nat(m as nat));
        lemma_scan_shape(s4, start, sign, false, 0, 0);
        let r = 100 * d0 + 10 * d1 + d2;
        assert(0 <= d0 <= 9 && 0 <= d1 <= 9 && 0 <= d2 <= 9);
        let n = crate::grammar::abs(v);
        assert(v == v4 * 1000 + sign * r && n == m * 1000 + r && m >= 1) by (nonlinear_arith)
            requires
                sign == 1 || sign == -1,
                v2 == v4 * 10 + sign * d0,
                v1 == v2 * 10 + sign * d1,
                v == v1 * 10 + sign * d2,
                r == 100 * d0 + 10 * d1 + d2,
                0 <= d0 <= 9,
                0 <= d1 <= 9,
                0 <= d2 <= 9,
                v4 != 0,
                sign == 1 ==> v4 >= 0,
                sign == -1 ==> v4 <= 0,
                m == crate::grammar::abs(v4),
                n == crate::grammar::abs(v),
        ;
        assert(n >= 1000);
        assert(n / 1000 == m && n % 1000 == r) by (nonlinear_arith)
            requires
                n == m * 1000 + r,
                0 <= r < 1000,
                m >= 1,
        ;
        assert(int_text_nat(n as nat) =~= int_text_nat((n as nat) / 1000) + seq![UNDERSCORE]
            + pad3((n as nat) % 1000));
        assert(r / 100 == d0 && (r / 10) % 10 == d1 && r % 10 == d2) by (nonlinear_arith)
            requires
                r == 100 * d0 + 10 * d1 + d2,
                0 <= d0 <= 9,
                0 <= d1 <= 9,
                0 <= d2 <= 9,
        ;
        assert(pad3((n as nat) % 1000) =~= seq![(D0 + d0) as u8, (D0 + d1) as u8, (D0 + d2) as u8]);
        assert(s[L - 3] == (D0 + d0) as u8 && s[L - 2] == (D0 + d1) as u8 && s[L - 1] == (D0
            + d2) as u8);
        assert(s.skip(start) =~= s4.skip(start) + seq![UNDERSCORE] + seq![
            s[L - 3],
            s[L - 2],
            s[L - 1],
        ]);
        assert(s.skip(start) =~= int_text_nat(n as nat));
    }
}

/// The reverse direction for integers: an input that decodes as an
/// integer at top level was exactly the canonical text of that value, so
/// re-encoding the value reproduces the input byte for byte —
/// `encode(decode(s)) == s`.
pub proof fn lemma_integer_canonical(s: Seq<u8>)
    requires
        spec_consume_integer(s, 0) is Ok,
    ensures
        s == int_text(spec_consume_integer(s, 0)->Ok_0.0),
{
    let (v, n) = spec_consume_integer(s, 0)->Ok_0;
    let (v0, end) = spec_integer_value(s)->Ok_0;
    assert(v == v0);
    let neg = crate::grammar::int_neg(s);
    let sign = crate::grammar::int_sign(s);
    let start = crate::grammar::int_start(s);
    assert(start <= s.len()) by {
        if neg && s.len() < 1 {
            assert(false);
        }
    }
    lemma_scan_shape(s, start, sign, false, 0, 0);
    assert(end <= s.len());
    assert(spec_close_item(s.skip(end), 0, ErrorReason::MalformedInteger) is Ok);
    assert(s.skip(end).len() == 0);
    assert(end == s.len());
    lemma_scan_canonical(s, start, sign);
    assert(s.skip(start) == int_text_nat(crate::grammar::abs(v) as nat));
    if neg {
        assert(v <= 0);
        assert(v != 0);
        assert(int_text(v) =~= seq![HYPHEN] + int_text_nat((-v) as nat));
        assert((-v) as nat == crate::grammar::abs(v) as nat);
        assert(s[0] == HYPHEN);
        assert(s =~= seq![s[0]] + s.skip(1));
        assert(s =~= int_text(v));
    } else {
        assert(v >= 0);
        assert(int_text(v) =~= int_text_nat(v as nat));
        assert(v as nat == crate::grammar::abs(v) as nat);
        assert(s.skip(0) =~= s);
        assert(s =~= int_text(v));
    }
}

/// Decoding the canonical text of any `i64` yields that value back,
/// consuming exactly that text: `decode(encode(v)) == v` for integers.
pub proof fn lemma_integer_round_trip(v: i64)
    ensures
        spec_consume_integer(int_text(v as int), 0) == Ok::<(int, int), ErrorReason>(
            (v as int, int_text(v as int).len() as int),
        ),
{
    let s = int_text(v as int);
    if v >= 0 {
        let n = v as nat;
        assert(s =~= int_text_nat(n));
        lemma_int_text_nat_shape(n);
        assert(!crate::grammar::int_neg(s));
        assert(s.subrange(0, s.len() as int) =~= s);
        lemma_scan_int_text_nat(s, 0, n, 1);
        let g: int = if n < 10 {
            1
        } else if n < 100 {
            2
        } else {
            3
        };
        assert(spec_int_scan(s, s.len() as int, 1, n >= 1000, g, v as int) == Ok::<
            (int, bool, int, int),
            ErrorReason,
        >((v as int, n >= 1000, g, s.len() as int)));
        assert(spec_integer_value(s) == Ok::<(int, int), ErrorReason>((v as int, s.len() as int)));
    } else {
        let n = (-(v as int)) as nat;
        assert(s =~= seq![HYPHEN] + int_text_nat(n));
        lemma_int_text_nat_shape(n);
        assert(s[0] == HYPHEN);
        assert(crate::grammar::int_neg(s));
        assert(s.subrange(1, 1 + int_text_nat(n).len() as int) =~= int_text_nat(n));
        lemma_scan_int_text_nat(s, 1, n, -1);
        let g: int = if n < 10 {
            1
        } else if n < 100 {
            2
        } else {
            3
        };
        assert(spec_int_scan(s, s.len() as int, -1, n >= 1000, g, v as int) == Ok::<
            (int, bool, int, int),
            ErrorReason,
        >((v as int, n >= 1000, g, s.len() as int)));
        assert(spec_integer_value(s) == Ok::<(int, int), ErrorReason>((v as int, s.len() as int)));
    }
    assert(s.skip(s.len() as int) =~= Seq::<u8>::empty());
    assert(spec_close_item(s.skip(s.len() as int), 0, ErrorReason::MalformedInteger) == Ok::<
        int,
        ErrorReason,
    >(0));
}

/// No byte of an escaped string body is a quote: quotes themselves are
/// spelled as escapes, and escape spellings use only `\\` and hex digits.
proof fn lemma_escape_no_quote(sb: Seq<u8>)
    ensures
        forall|k: int|
            0 <= k < escape_bytes(sb).len() ==> #[trigger] escape_bytes(sb)[k] != QUOTE,
    decreases sb.len(),
{
    if sb.len() > 0 {
        lemma_escape_no_quote(sb.skip(1));
        assert(escape_bytes(sb) =~= esc_byte(sb[0]) + escape_bytes(sb.skip(1)));
        assert(forall|k: int|
            0 <= k < esc_byte(sb[0]).len() ==> #[trigger] esc_byte(sb[0])[k] != QUOTE);
    }
}

/// The quote scan passes over a quote-free region unchanged.
proof fn lemma_find_quote_advance(s: Seq<u8>, i: int, j: int)
    requires
        0 <= i <= j <= s.len(),
        forall|k: int| i <= k < j ==> s[k] != QUOTE,
    ensures
        find_quote(s, i) == find_quote(s, j),
    decreases j - i,
{
    if i < j {
        lemma_find_quote_advance(s, i + 1, j);
    }
}

/// Unescaping undoes escaping: the escaped spelling of any byte sequence
/// unescapes to exactly that sequence.
proof fn lemma_unescape_escape(sb: Seq<u8>)
    ensures
        spec_unescape(escape_bytes(sb)) == Ok::<Seq<u8>, (ErrorReason, Seq<u8>)>(sb),
    decreases sb.len(),
{
    let body = escape_bytes(sb);
    if sb.len() == 0 {
        assert(body =~= Seq::<u8>::empty());
        assert(sb =~= Seq::<u8>::empty());
    } else {
        let b = sb[0];
        let rest = sb.skip(1);
        lemma_unescape_escape(rest);
        assert(body =~= esc_byte(b) + escape_bytes(rest));
        if must_escape(b) {
            let h1 = hex_digit(b as int / 16);
            let h2 = hex_digit(b as int % 16);
            assert(body[0] == BACKSLASH && body[1] == h1 && body[2] == h2);
            assert(is_lower_hex(h1) && hex_val(h1) == b as int / 16);
            assert(is_lower_hex(h2) && hex_val(h2) == b as int % 16);
            assert(16 * hex_val(body[1]) + hex_val(body[2]) == b);
            assert(body.skip(3) =~= escape_bytes(rest));
            assert(seq![b] + rest =~= sb);
        } else {
            assert(b != BACKSLASH);
            assert(body[0] == b);
            assert(body.skip(1) =~= escape_bytes(rest));
            assert(seq![b] + rest =~= sb);
        }
    }
}

/// Decoding the text the encoder emits for a string yields the same
/// characters back, consuming exactly that text:
/// `decode(encode(v)) == v` for strings.
pub proof fn lemma_string_round_trip(cs: Seq<char>)
    ensures
        ({
            let body = escape_bytes(vstd::utf8::encode_utf8(cs));
            spec_consume_string(seq![QUOTE] + body + seq![QUOTE], 0) == Ok::<
                (Seq<char>, int),
                (ErrorReason, Option<Seq<u8>>),
            >((cs, body.len() as int + 2))
        }),
{
    let sb = vstd::utf8::encode_utf8(cs);
    vstd::utf8::encode_utf8_valid_utf8(cs);
    let body = escape_bytes(sb);
    let blen = body.len() as int;
    let s = seq![QUOTE] + body + seq![QUOTE];
    assert(s.len() == blen + 2);
    assert(s[0] == QUOTE);
    lemma_escape_no_quote(sb);
    assert(forall|k: int| 1 <= k < 1 + blen ==> #[trigger] s[k] != QUOTE);
    lemma_find_quote_advance(s, 1, 1 + blen);
    assert(s[1 + blen] == QUOTE);
    assert(find_quote(s, 1 + blen) == Some(1 + blen));
    assert(find_quote(s, 1) == Some(1 + blen));
    let span = s.subrange(1, 1 + blen);
    assert(span =~= body);
    crate::grammar::lemma_escape_bytes_valid(sb);
    lemma_unescape_escape(sb);
    assert(spec_unescape(span) == Ok::<Seq<u8>, (ErrorReason, Seq<u8>)>(sb));
    vstd::utf8::encode_utf8_decode_utf8(cs);
    assert(vstd::utf8::decode_utf8(sb) == cs);
    assert(spec_string_value(s) == Ok::<(Seq<char>, int), (ErrorReason, Option<Seq<u8>>)>(
        (cs, blen + 2),
    ));
    assert(s.skip(blen + 2) =~= Seq::<u8>::empty());
    assert(spec_close_item(s.skip(blen + 2), 0, ErrorReason::MalformedString) == Ok::<
        int,
        ErrorReason,
    >(0));
}

/// Where a caller needs a month after the year, a week marker is told
/// apart at once: input that continues `-W` fails the month production
/// with its dedicated expectation reason and yields no month value.
pub proof fn lemma_month_refuses_week(s: Seq<u8>)
    requires
        s.len() >= 2,
        s[0] == HYPHEN,
        s[1] == UC_W,
    ensures
        spec_month(s) == Err::<(int, int), ErrorReason>(ErrorReason::ExpectedMonth),
{
}

/// Links the bytes of a production's text, standing at the start of `s`,
/// to indexing into `s` itself.
proof fn lemma_bytes_at0(s: Seq<u8>, txt: Seq<u8>)
    requires
        txt.len() <= s.len(),
        s.subrange(0, txt.len() as int) == txt,
    ensures
        forall|k: int| 0 <= k < txt.len() ==> #[trigger] s[k] == txt[k],
{
    assert(forall|k: int|
        0 <= k < txt.len() ==> #[trigger] s.subrange(0, txt.len() as int)[k] == s[k]);
}

/// Two zero-padded digits spell their value back.
proof fn lemma_pad2(v: int)
    requires
        0 <= v <= 99,
    ensures
        pad2(v as nat).len() == 2,
        is_digit(pad2(v as nat)[0]),
        is_digit(pad2(v as nat)[1]),
        10 * digit_val(pad2(v as nat)[0]) + digit_val(pad2(v as nat)[1]) == v,
{
    assert((v / 10) % 10 == v / 10);
    assert(v == 10 * (v / 10) + v % 10);
}

/// Three zero-padded digits spell their value back.
proof fn lemma_pad3(v: int)
    requires
        0 <= v <= 999,
    ensures
        pad3(v as nat).len() == 3,
        is_digit(pad3(v as nat)[0]),
        is_digit(pad3(v as nat)[1]),
        is_digit(pad3(v as nat)[2]),
        100 * digit_val(pad3(v as nat)[0]) + 10 * digit_val(pad3(v as nat)[1]) + digit_val(
            pad3(v as nat)[2],
        ) == v,
{
    assert((v / 100) % 10 == v / 100);
    assert(v == 100 * (v / 100) + v % 100);
    assert(v % 100 == 10 * ((v % 100) / 10) + (v % 100) % 10);
    assert((v / 10) % 10 == (v % 100) / 10) by (nonlinear_arith)
        requires
            0 <= v <= 999,
    ;
    assert((v % 100) % 10 == v % 10) by (nonlinear_arith)
        requires
            0 <= v <= 999,
    ;
}

/// A zero-padded four-digit year behind `D` parses back to itself.
proof fn lemma_year_rt(s: Seq<u8>, y: int)
    requires
        1 <= y <= 9999,
        5 <= s.len(),
        s.subrange(0, 5) == year_text(y),
        s.len() == 5 || s[5] == HYPHEN || tz_or_end(s[5]),
    ensures
        spec_year(s) == Ok::<(int, int), ErrorReason>((y, 5)),
{
    let txt = year_text(y);
    assert(txt.len() == 5);
    lemma_bytes_at0(s, txt);
    assert(s[0] == txt[0] && s[1] == txt[1] && s[2] == txt[2] && s[3] == txt[3]
        && s[4] == txt[4]);
    assert(txt[1] == (D0 + (y as nat / 1000) % 10) as u8);
    assert(txt[2] == (D0 + (y as nat / 100) % 10) as u8);
    assert(txt[3] == (D0 + (y as nat / 10) % 10) as u8);
    assert(txt[4] == (D0 + y as nat % 10) as u8);
    assert((y / 1000) % 10 == y / 1000);
    assert(y == 10 * (y / 10) + y % 10);
    assert(y / 10 == 10 * (y / 100) + (y / 10) % 10);
    assert(y / 100 == 10 * (y / 1000) + (y / 100) % 10);
    assert(1000 * digit_val(s[1]) + 100 * digit_val(s[2]) + 10 * digit_val(s[3]) + digit_val(s[4])
        == y);
}

/// `-` and two digits parse back as the month.
proof fn lemma_month_rt(s: Seq<u8>, mo: int)
    requires
        1 <= mo <= 12,
        3 <= s.len(),
        s.subrange(0, 3) == month_text(mo),
        s.len() == 3 || s[3] == HYPHEN || tz_or_end(s[3]),
    ensures
        spec_month(s) == Ok::<(int, int), ErrorReason>((mo, 3)),
{
    lemma_pad2(mo);
    lemma_bytes_at0(s, month_text(mo));
    assert(s[0] == HYPHEN && s[1] == pad2(mo as nat)[0] && s[2] == pad2(mo as nat)[1]);
    assert(val2(s, 1) == mo);
}

/// `-W` and two digits parse back as the week.
proof fn lemma_week_rt(s: Seq<u8>, w: int)
    requires
        1 <= w <= 53,
        4 <= s.len(),
        s.subrange(0, 4) == week_text(w),
        s.len() == 4 || s[4] == HYPHEN || tz_or_end(s[4]),
    ensures
        spec_week(s) == Ok::<(int, int), ErrorReason>((w, 4)),
{
    lemma_pad2(w);
    lemma_bytes_at0(s, week_text(w));
    assert(s[0] == HYPHEN && s[1] == UC_W && s[2] == pad2(w as nat)[0] && s[3]
        == pad2(w as nat)[1]);
    assert(val2(s, 2) == w);
}

/// `-` and two digits parse back as the day.
proof fn lemma_day_rt(s: Seq<u8>, d: int)
    requires
        1 <= d <= 31,
        3 <= s.len(),
        s.subrange(0, 3) == day_text(d),
        s.len() == 3 || s[3] == UC_T || tz_or_end(s[3]),
    ensures
        spec_day(s) == Ok::<(int, int), ErrorReason>((d, 3)),
{
    lemma_pad2(d);
    lemma_bytes_at0(s, day_text(d));
    assert(s[0] == HYPHEN && s[1] == pad2(d as nat)[0] && s[2] == pad2(d as nat)[1]);
    assert(val2(s, 1) == d);
}

/// `-` and two digits parse back as the weekday.
proof fn lemma_weekday_rt(s: Seq<u8>, d: int)
    requires
        1 <= d <= 7,
        3 <= s.len(),
        s.subrange(0, 3) == weekday_text(d),
        s.len() == 3 || s[3] == UC_T || tz_or_end(s[3]),
    ensures
        spec_week_day(s) == Ok::<(int, int), ErrorReason>((d, 3)),
{
    lemma_pad2(d);
    lemma_bytes_at0(s, weekday_text(d));
    assert(s[0] == HYPHEN && s[1] == pad2(d as nat)[0] && s[2] == pad2(d as nat)[1]);
    assert(val2(s, 1) == d);
}

/// `T` and two digits parse back as the hour.
proof fn lemma_hour_rt(s: Seq<u8>, h: int)
    requires
        0 <= h <= 23,
        3 <= s.len(),
        s.subrange(0, 3) == hour_text(h),
        s.len() == 3 || s[3] == COLON || tz_or_end(s[3]),
    ensures
        spec_hour(s) == Ok::<(int, int), ErrorReason>((h, 3)),
{
    lemma_pad2(h);
    lemma_bytes_at0(s, hour_text(h));
    assert(s[0] == UC_T && s[1] == pad2(h as nat)[0] && s[2] == pad2(h as nat)[1]);
    assert(val2(s, 1) == h);
}

/// `:` and two digits parse back as the minute.
proof fn lemma_minute_rt(s: Seq<u8>, m: int)
    requires
        0 <= m <= 59,
        3 <= s.len(),
        s.subrange(0, 3) == minute_text(m),
        s.len() == 3 || s[3] == COLON || tz_or_end(s[3]),
    ensures
        spec_minute(s) == Ok::<(int, int), ErrorReason>((m, 3)),
{
    lemma_pad2(m);
    lemma_bytes_at0(s, minute_text(m));
    assert(s[0] == COLON && s[1] == pad2(m as nat)[0] && s[2] == pad2(m as nat)[1]);
    assert(val2(s, 1) == m);
}

/// `:` and two digits parse back as the second.
proof fn lemma_second_rt(s: Seq<u8>, sec: int)
    requires
        0 <= sec <= 60,
        3 <= s.len(),
        s.subrange(0, 3) == second_text(sec),
        s.len() == 3 || s[3] == PERIOD || tz_or_end(s[3]),
    ensures
        spec_second(s) == Ok::<(int, int), ErrorReason>((sec, 3)),
{
    lemma_pad2(sec);
    lemma_bytes_at0(s, second_text(sec));
    assert(s[0] == COLON && s[1] == pad2(sec as nat)[0] && s[2] == pad2(
        sec as nat,
    )[1]);
    assert(val2(s, 1) == sec);
}

/// A prefixed three-digit sub-second group parses back to its value.
proof fn lemma_subsec_rt(s: Seq<u8>, prefix: u8, v: int)
    requires
        0 <= v <= 999,
        4 <= s.len(),
        prefix == PERIOD || prefix == UNDERSCORE,
        s.subrange(0, 4) == seq![prefix] + pad3(v as nat),
        s.len() == 4 || s[4] == UNDERSCORE || tz_or_end(s[4]),
    ensures
        prefix == PERIOD ==> spec_millisecond(s) == Ok::<(int, int), ErrorReason>((v, 4)),
        prefix == UNDERSCORE ==> spec_microsecond(s) == Ok::<(int, int), ErrorReason>((v, 4)),
        prefix == UNDERSCORE && (s.len() == 4 || tz_or_end(s[4])) ==> spec_nanosecond(s) == Ok::<
            (int, int),
            ErrorReason,
        >((v, 4)),
{
    lemma_pad3(v);
    lemma_bytes_at0(s, seq![prefix] + pad3(v as nat));
    assert(s[0] == prefix && s[1] == pad3(v as nat)[0] && s[2] == pad3(v as nat)[1]
        && s[3] == pad3(v as nat)[2]);
    assert(crate::grammar::val3(s, 1) == v);
}

/// The canonical spelling of any well-formed offset parses back to itself
/// when it ends the input.
proof fn lemma_tz_rt(s: Seq<u8>, h: int, m: int)
    requires
        -23 <= h <= 23,
        0 <= m <= 59,
        s.subrange(0, tz_text(h, m).len() as int) == tz_text(h, m),
        s.len() == tz_text(h, m).len(),
    ensures
        spec_tz(s, ErrorReason::ExpectedTzOffset) == Ok::<((int, int), int), ErrorReason>(
            ((h, m), tz_text(h, m).len() as int),
        ),
{
    reveal(crate::grammar::spec_tz);
    let txt = tz_text(h, m);
    let mag = crate::grammar::abs(h);
    if h == 0 && m == 0 {
        assert(txt =~= seq![UC_Z]);
        lemma_bytes_at0(s, txt);
        assert(s[0] == UC_Z);
    } else {
        lemma_pad2(mag);
        let sign: u8 = if h >= 0 {
            PLUS
        } else {
            TILDE
        };
        if m == 0 {
            assert(txt =~= seq![sign] + pad2(mag as nat));
            assert(txt.len() == 3);
            lemma_bytes_at0(s, txt);
            assert(s[0] == sign && s[1] == pad2(mag as nat)[0] && s[2] == pad2(mag as nat)[1]);
            assert(val2(s, 1) == mag);
            assert(has2(s, 1));
            assert(h != 0);
            if h >= 0 {
                assert(1 * val2(s, 1) == h);
            } else {
                assert(-mag == -1 * mag) by (nonlinear_arith);
                assert(-1 * val2(s, 1) == h);
            }
        } else {
            lemma_pad2(m);
            assert(txt =~= seq![sign] + pad2(mag as nat) + seq![COLON] + pad2(m as nat));
            assert(txt.len() == 6);
            lemma_bytes_at0(s, txt);
            assert(s[0] == sign && s[1] == pad2(mag as nat)[0] && s[2] == pad2(mag as nat)[1]);
            assert(s[3] == COLON && s[4] == pad2(m as nat)[0] && s[5] == pad2(m as nat)[1]);
            assert(val2(s, 1) == mag);
            assert(val2(s, 4) == m);
            assert(has2(s, 1) && has2(s, 4));
            if h >= 0 {
                assert(1 * val2(s, 1) == h);
            } else {
                assert(-mag == -1 * mag) by (nonlinear_arith);
                assert(-1 * val2(s, 1) == h);
            }
        }
    }
}

#[verifier::rlimit(100)]
#[verifier::spinoff_prover]
proof fn lemma_time_rt_hour(s: Seq<u8>, t: Time)
    requires
        t is Hour,
        t.wf(),
        time_text(t).len() <= s.len(),
        s.subrange(0, time_text(t).len() as int) == time_text(t),
        s.len() == time_text(t).len() || tz_or_end(s[time_text(t).len() as int]),
    ensures
        spec_time(s) == Ok::<(Time, int), ErrorReason>((t, time_text(t).len() as int)),
{
    reveal(crate::grammar::spec_time);
    let txt = time_text(t);
    let tlen = txt.len() as int;
    lemma_bytes_at0(s, txt);
    match t {
        Time::Hour { h } => {
            assert(txt =~= hour_text(h as int));
            assert(tlen == 3);
            assert(s.subrange(0, 3) =~= hour_text(h as int));
            lemma_hour_rt(s, h as int);
        },
        _ => {},
    }
}

#[verifier::rlimit(100)]
#[verifier::spinoff_prover]
proof fn lemma_time_rt_hm(s: Seq<u8>, t: Time)
    requires
        t is HourMinute,
        t.wf(),
        time_text(t).len() <= s.len(),
        s.subrange(0, time_text(t).len() as int) == time_text(t),
        s.len() == time_text(t).len() || tz_or_end(s[time_text(t).len() as int]),
    ensures
        spec_time(s) == Ok::<(Time, int), ErrorReason>((t, time_text(t).len() as int)),
{
    reveal(crate::grammar::spec_time);
    let txt = time_text(t);
    let tlen = txt.len() as int;
    lemma_bytes_at0(s, txt);
    match t {
        Time::HourMinute { h, m } => {
            assert(txt =~= hour_text(h as int) + minute_text(m as int));
            assert(tlen == 6);
            assert(s.subrange(0, 3) =~= hour_text(h as int));
            assert(s[3] == txt[3] && txt[3] == COLON);
            lemma_hour_rt(s, h as int);
            let s1 = s.skip(3);
            assert(s1.subrange(0, 3) =~= s.subrange(3, 6));
            assert(s.subrange(3, 6) =~= minute_text(m as int));
            assert(s1.len() == 3 || s1[3] == s[6]);
            lemma_minute_rt(s1, m as int);
            assert(s.len() == 6 || s[6] != COLON);
        },
        _ => {},
    }
}

#[verifier::rlimit(100)]
#[verifier::spinoff_prover]
proof fn lemma_time_rt_hms(s: Seq<u8>, t: Time)
    requires
        t is HourMinuteSecond,
        t.wf(),
        time_text(t).len() <= s.len(),
        s.subrange(0, time_text(t).len() as int) == time_text(t),
        s.len() == time_text(t).len() || tz_or_end(s[time_text(t).len() as int]),
    ensures
        spec_time(s) == Ok::<(Time, int), ErrorReason>((t, time_text(t).len() as int)),
{
    reveal(crate::grammar::spec_time);
    let txt = time_text(t);
    let tlen = txt.len() as int;
    lemma_bytes_at0(s, txt);
    match t {
        Time::HourMinuteSecond { h, m, s: sec } => {
            assert(txt =~= hour_text(h as int) + minute_text(m as int) + second_text(sec as int));
            assert(tlen == 9);
            assert(s.subrange(0, 3) =~= hour_text(h as int));
            assert(s[3] == COLON);
            lemma_hour_rt(s, h as int);
            let s1 = s.skip(3);
            assert(s1.subrange(0, 3) =~= s.subrange(3, 6));
            assert(s.subrange(3, 6) =~= minute_text(m as int));
            assert(s1.len() >= 4 && s1[3] == s[6] && s[6] == COLON);
            lemma_minute_rt(s1, m as int);
            let s2 = s.skip(6);
            assert(s2.subrange(0, 3) =~= s.subrange(6, 9));
            assert(s.subrange(6, 9) =~= second_text(sec as int));
            assert(s2.len() == 3 || s2[3] == s[9]);
            lemma_second_rt(s2, sec as int);
            assert(s.len() == 9 || s[9] != PERIOD);
            assert(spec_time_after_minute(s, h as int, m as int, 6) == Ok::<
                (Time, int),
                ErrorReason,
            >((t, 9)));
        },
        _ => {},
    }
}

#[verifier::rlimit(100)]
#[verifier::spinoff_prover]
proof fn lemma_time_rt_ms(s: Seq<u8>, t: Time)
    requires
        t is HourMinuteMillisecond,
        t.wf(),
        time_text(t).len() <= s.len(),
        s.subrange(0, time_text(t).len() as int) == time_text(t),
        s.len() == time_text(t).len() || tz_or_end(s[time_text(t).len() as int]),
    ensures
        spec_time(s) == Ok::<(Time, int), ErrorReason>((t, time_text(t).len() as int)),
{
    reveal(crate::grammar::spec_time);
    let txt = time_text(t);
    let tlen = txt.len() as int;
    lemma_bytes_at0(s, txt);
    match t {
        Time::HourMinuteMillisecond { h, m, ms } => {
            let sec = ms as int / 1000;
            let ms3 = ms as int % 1000;
            assert(txt =~= hour_text(h as int) + minute_text(m as int) + ms_text(ms as int));
            assert(ms_text(ms as int) =~= second_text(sec) + seq![PERIOD] + pad3(ms3 as nat));
            assert(tlen == 13);
            assert(s.subrange(0, 3) =~= hour_text(h as int));
            assert(s[3] == COLON);
            lemma_hour_rt(s, h as int);
            let s1 = s.skip(3);
            assert(s1.subrange(0, 3) =~= s.subrange(3, 6));
            assert(s.subrange(3, 6) =~= minute_text(m as int));
            assert(s1.len() >= 4 && s1[3] == s[6] && s[6] == COLON);
            lemma_minute_rt(s1, m as int);
            let s2 = s.skip(6);
            assert(s2.subrange(0, 3) =~= s.subrange(6, 9));
            assert(s.subrange(6, 9) =~= second_text(sec));
            assert(s2.len() >= 4 && s2[3] == s[9] && s[9] == PERIOD);
            assert(0 <= sec <= 60);
            lemma_second_rt(s2, sec);
            let s3 = s.skip(9);
            assert(s3.subrange(0, 4) =~= s.subrange(9, 13));
            assert(s.subrange(9, 13) =~= seq![PERIOD] + pad3(ms3 as nat));
            assert(s3.len() == 4 || s3[4] == s[13]);
            lemma_subsec_rt(s3, PERIOD, ms3);
            assert(1000 * sec + ms3 == ms as int);
            assert(s.len() == 13 || s[13] != UNDERSCORE);
            assert(spec_time_subsec(s, h as int, m as int, sec, 9) == Ok::<
                (Time, int),
                ErrorReason,
            >((t, 13)));
            assert(spec_time_after_minute(s, h as int, m as int, 6) == Ok::<
                (Time, int),
                ErrorReason,
            >((t, 13)));
        },
        _ => {},
    }
}

#[verifier::rlimit(100)]
#[verifier::spinoff_prover]
proof fn lemma_time_rt_us(s: Seq<u8>, t: Time)
    requires
        t is HourMinuteMicrosecond,
        t.wf(),
        time_text(t).len() <= s.len(),
        s.subrange(0, time_text(t).len() as int) == time_text(t),
        s.len() == time_text(t).len() || tz_or_end(s[time_text(t).len() as int]),
    ensures
        spec_time(s) == Ok::<(Time, int), ErrorReason>((t, time_text(t).len() as int)),
{
    reveal(crate::grammar::spec_time);
    let txt = time_text(t);
    let tlen = txt.len() as int;
    lemma_bytes_at0(s, txt);
    match t {
        Time::HourMinuteMicrosecond { h, m, us } => {
            let x = us as int / 1000;
            let sec = x / 1000;
            let ms3 = x % 1000;
            let us3 = us as int % 1000;
            assert(txt =~= hour_text(h as int) + minute_text(m as int) + us_text(us as int));
            assert(us_text(us as int) =~= ms_text(x) + seq![UNDERSCORE] + pad3(us3 as nat));
            assert(ms_text(x) =~= second_text(sec) + seq![PERIOD] + pad3(ms3 as nat));
            assert(tlen == 17);
            assert(s.subrange(0, 3) =~= hour_text(h as int));
            assert(s[3] == COLON);
            lemma_hour_rt(s, h as int);
            let s1 = s.skip(3);
            assert(s1.subrange(0, 3) =~= s.subrange(3, 6));
            assert(s.subrange(3, 6) =~= minute_text(m as int));
            assert(s1.len() >= 4 && s1[3] == s[6] && s[6] == COLON);
            lemma_minute_rt(s1, m as int);
            let s2 = s.skip(6);
            assert(s2.subrange(0, 3) =~= s.subrange(6, 9));
            assert(s.subrange(6, 9) =~= second_text(sec));
            assert(s2.len() >= 4 && s2[3] == s[9] && s[9] == PERIOD);
            assert(0 <= sec <= 60) by (nonlinear_arith)
                requires
                    x == us as int / 1000,
                    sec == x / 1000,
                    0 <= us <= 60_999_999,
            ;
            lemma_second_rt(s2, sec);
            let s3 = s.skip(9);
            assert(s3.subrange(0, 4) =~= s.subrange(9, 13));
            assert(s.subrange(9, 13) =~= seq![PERIOD] + pad3(ms3 as nat));
            assert(s3.len() >= 5 && s3[4] == s[13] && s[13] == UNDERSCORE);
            lemma_subsec_rt(s3, PERIOD, ms3);
            assert(1000 * sec + ms3 == x);
            let s4 = s.skip(13);
            assert(s4.subrange(0, 4) =~= s.subrange(13, 17));
            assert(s.subrange(13, 17) =~= seq![UNDERSCORE] + pad3(us3 as nat));
            assert(s4.len() == 4 || s4[4] == s[17]);
            lemma_subsec_rt(s4, UNDERSCORE, us3);
            assert(1000 * x + us3 == us as int);
            assert(s.len() == 17 || s[17] != UNDERSCORE);
            assert(spec_time_subsec(s, h as int, m as int, sec, 9) == Ok::<
                (Time, int),
                ErrorReason,
            >((t, 17)));
            assert(spec_time_after_minute(s, h as int, m as int, 6) == Ok::<
                (Time, int),
                ErrorReason,
            >((t, 17)));
        },
        _ => {},
    }
}

#[verifier::rlimit(100)]
#[verifier::spinoff_prover]
proof fn lemma_time_rt_ns(s: Seq<u8>, t: Time)
    requires
        t is HourMinuteNanosecond,
        t.wf(),
        time_text(t).len() <= s.len(),
        s.subrange(0, time_text(t).len() as int) == time_text(t),
        s.len() == time_text(t).len() || tz_or_end(s[time_text(t).len() as int]),
    ensures
        spec_time(s) == Ok::<(Time, int), ErrorReason>((t, time_text(t).len() as int)),
{
    reveal(crate::grammar::spec_time);
    let txt = time_text(t);
    let tlen = txt.len() as int;
    lemma_bytes_at0(s, txt);
    match t {
        Time::HourMinuteNanosecond { h, m, ns } => {
            let x2 = ns as int / 1000;
            let x1 = x2 / 1000;
            let sec = x1 / 1000;
            let ms3 = x1 % 1000;
            let us3 = x2 % 1000;
            let ns3 = ns as int % 1000;
            assert(txt =~= hour_text(h as int) + minute_text(m as int) + ns_text(ns as int));
            assert(ns_text(ns as int) =~= us_text(x2) + seq![UNDERSCORE] + pad3(ns3 as nat));
            assert(us_text(x2) =~= ms_text(x1) + seq![UNDERSCORE] + pad3(us3 as nat));
            assert(ms_text(x1) =~= second_text(sec) + seq![PERIOD] + pad3(ms3 as nat));
            assert(tlen == 21);
            assert(s.subrange(0, 3) =~= hour_text(h as int));
            assert(s[3] == COLON);
            lemma_hour_rt(s, h as int);
            let s1 = s.skip(3);
            assert(s1.subrange(0, 3) =~= s.subrange(3, 6));
            assert(s.subrange(3, 6) =~= minute_text(m as int));
            assert(s1.len() >= 4 && s1[3] == s[6] && s[6] == COLON);
            lemma_minute_rt(s1, m as int);
            let s2 = s.skip(6);
            assert(s2.subrange(0, 3) =~= s.subrange(6, 9));
            assert(s.subrange(6, 9) =~= second_text(sec));
            assert(s2.len() >= 4 && s2[3] == s[9] && s[9] == PERIOD);
            assert(0 <= sec <= 60) by (nonlinear_arith)
                requires
                    x2 == ns as int / 1000,
                    x1 == x2 / 1000,
                    sec == x1 / 1000,
                    0 <= ns <= 60_999_999_999,
            ;
            lemma_second_rt(s2, sec);
            let s3 = s.skip(9);
            assert(s3.subrange(0, 4) =~= s.subrange(9, 13));
            assert(s.subrange(9, 13) =~= seq![PERIOD] + pad3(ms3 as nat));
            assert(s3.len() >= 5 && s3[4] == s[13] && s[13] == UNDERSCORE);
            lemma_subsec_rt(s3, PERIOD, ms3);
            assert(1000 * sec + ms3 == x1);
            let s4 = s.skip(13);
            assert(s4.subrange(0, 4) =~= s.subrange(13, 17));
            assert(s.subrange(13, 17) =~= seq![UNDERSCORE] + pad3(us3 as nat));
            assert(s4.len() >= 5 && s4[4] == s[17] && s[17] == UNDERSCORE);
            lemma_subsec_rt(s4, UNDERSCORE, us3);
            assert(1000 * x1 + us3 == x2);
            let s5 = s.skip(17);
            assert(s5.subrange(0, 4) =~= s.subrange(17, 21));
            assert(s.subrange(17, 21) =~= seq![UNDERSCORE] + pad3(ns3 as nat));
            assert(s5.len() == 4 || s5[4] == s[21]);
            lemma_subsec_rt(s5, UNDERSCORE, ns3);
            assert(1000 * x2 + ns3 == ns as int);
            assert(spec_time_subsec(s, h as int, m as int, sec, 9) == Ok::<
                (Time, int),
                ErrorReason,
            >((t, 21)));
            assert(spec_time_after_minute(s, h as int, m as int, 6) == Ok::<
                (Time, int),
                ErrorReason,
            >((t, 21)));
        },
        _ => {},
    }
}

/// The canonical text of a well-formed time parses back to that time when
/// followed by a timezone offset, a list delimiter or the end of input.
proof fn lemma_time_rt(s: Seq<u8>, t: Time)
    requires
        t.wf(),
        time_text(t).len() <= s.len(),
        s.subrange(0, time_text(t).len() as int) == time_text(t),
        s.len() == time_text(t).len() || tz_or_end(s[time_text(t).len() as int]),
    ensures
        spec_time(s) == Ok::<(Time, int), ErrorReason>((t, time_text(t).len() as int)),
{
    match t {
        Time::Hour { .. } => lemma_time_rt_hour(s, t),
        Time::HourMinute { .. } => lemma_time_rt_hm(s, t),
        Time::HourMinuteSecond { .. } => lemma_time_rt_hms(s, t),
        Time::HourMinuteMillisecond { .. } => lemma_time_rt_ms(s, t),
        Time::HourMinuteMicrosecond { .. } => lemma_time_rt_us(s, t),
        Time::HourMinuteNanosecond { .. } => lemma_time_rt_ns(s, t),
    }
}

/// The canonical text of a well-formed date parses back to that date when
/// followed by a time (day-bearing dates only), a timezone offset, a list
/// delimiter or the end of input.
#[verifier::rlimit(100)]
#[verifier::spinoff_prover]
proof fn lemma_date_rt(s: Seq<u8>, d: Date)
    requires
        d.wf(),
        date_text(d).len() <= s.len(),
        s.subrange(0, date_text(d).len() as int) == date_text(d),
        s.len() == date_text(d).len() || tz_or_end(s[date_text(d).len() as int]) || (d.has_day()
            && s[date_text(d).len() as int] == UC_T),
    ensures
        spec_date(s) == Ok::<(Date, int), ErrorReason>((d, date_text(d).len() as int)),
{
    reveal(crate::grammar::spec_date);
    let txt = date_text(d);
    let dlen = txt.len() as int;
    lemma_bytes_at0(s, txt);
    match d {
        Date::Year { y } => {
            assert(txt =~= year_text(y as int));
            assert(dlen == 5);
            assert(s.subrange(0, 5) =~= year_text(y as int));
            lemma_year_rt(s, y as int);
            assert(s.len() == 5 || s[5] != HYPHEN);
        },
        Date::YearMonth { y, mo } => {
            assert(txt =~= year_text(y as int) + month_text(mo as int));
            assert(dlen == 8);
            assert(s.subrange(0, 5) =~= year_text(y as int));
            assert(s[5] == HYPHEN);
            lemma_pad2(mo as int);
            assert(s[6] == pad2(mo as nat)[0] && is_digit(s[6]) && s[6] != UC_W);
            lemma_year_rt(s, y as int);
            let s1 = s.skip(5);
            assert(s1.subrange(0, 3) =~= s.subrange(5, 8));
            assert(s.subrange(5, 8) =~= month_text(mo as int));
            assert(s1.len() == 3 || s1[3] == s[8]);
            lemma_month_rt(s1, mo as int);
            assert(s.len() == 8 || s[8] != HYPHEN);
            assert(!(6 < s.len() && s[6int] == UC_W));
        },
        Date::YearMonthDay { y, mo, d: dd } => {
            assert(txt =~= year_text(y as int) + month_text(mo as int) + day_text(dd as int));
            assert(dlen == 11);
            assert(s.subrange(0, 5) =~= year_text(y as int));
            assert(s[5] == HYPHEN);
            lemma_pad2(mo as int);
            assert(s[6] == pad2(mo as nat)[0] && is_digit(s[6]) && s[6] != UC_W);
            lemma_year_rt(s, y as int);
            let s1 = s.skip(5);
            assert(s1.subrange(0, 3) =~= s.subrange(5, 8));
            assert(s.subrange(5, 8) =~= month_text(mo as int));
            assert(s1.len() >= 4 && s1[3] == s[8] && s[8] == HYPHEN);
            lemma_month_rt(s1, mo as int);
            let s2 = s.skip(8);
            assert(s2.subrange(0, 3) =~= s.subrange(8, 11));
            assert(s.subrange(8, 11) =~= day_text(dd as int));
            assert(s2.len() == 3 || s2[3] == s[11]);
            lemma_day_rt(s2, dd as int);
            assert(!(6 < s.len() && s[6int] == UC_W));
        },
        Date::YearWeek { y, w } => {
            assert(txt =~= year_text(y as int) + week_text(w as int));
            assert(dlen == 9);
            assert(s.subrange(0, 5) =~= year_text(y as int));
            assert(s[5] == HYPHEN && s[6] == UC_W);
            lemma_year_rt(s, y as int);
            let s1 = s.skip(5);
            assert(s1.subrange(0, 4) =~= s.subrange(5, 9));
            assert(s.subrange(5, 9) =~= week_text(w as int));
            assert(s1.len() == 4 || s1[4] == s[9]);
            lemma_week_rt(s1, w as int);
            assert(s.len() == 9 || s[9] != HYPHEN);
        },
        Date::YearWeekDay { y, w, d: dd } => {
            assert(txt =~= year_text(y as int) + week_text(w as int) + weekday_text(dd as int));
            assert(dlen == 12);
            assert(s.subrange(0, 5) =~= year_text(y as int));
            assert(s[5] == HYPHEN && s[6] == UC_W);
            lemma_year_rt(s, y as int);
            let s1 = s.skip(5);
            assert(s1.subrange(0, 4) =~= s.subrange(5, 9));
            assert(s.subrange(5, 9) =~= week_text(w as int));
            assert(s1.len() >= 5 && s1[4] == s[9] && s[9] == HYPHEN);
            lemma_week_rt(s1, w as int);
            let s2 = s.skip(9);
            assert(s2.subrange(0, 3) =~= s.subrange(9, 12));
            assert(s.subrange(9, 12) =~= weekday_text(dd as int));
            assert(s2.len() == 3 || s2[3] == s[12]);
            lemma_weekday_rt(s2, dd as int);
        },
    }
}

#[verifier::rlimit(100)]
#[verifier::spinoff_prover]
proof fn lemma_dtz_rt_date(v: DateTimeTzOffset)
    requires
        v is Date,
        v.wf(),
    ensures
        spec_consume_date_time_tz(dtz_text(v), 0) == Ok::<(DateTimeTzOffset, int), ErrorReason>(
            (v, dtz_text(v).len() as int),
        ),
{
    let s = dtz_text(v);
    match v {
        DateTimeTzOffset::Date(d) => {
            assert(s =~= date_text(d));
            assert(s.subrange(0, s.len() as int) =~= s);
            lemma_date_rt(s, d);
            lemma_date_starts_with_marker(d);
            let n1 = date_text(d).len() as int;
            let s1 = s.skip(n1);
            assert(s1 =~= Seq::<u8>::empty());
            assert(spec_dtz_after_time(s1, Some(d), None::<Time>, 0) == Ok::<
                (DateTimeTzOffset, int),
                ErrorReason,
            >((v, 0)));
            assert(spec_dtz_after_date(s1, Some(d), 0) == Ok::<(DateTimeTzOffset, int), ErrorReason>(
                (v, 0),
            ));
        },
        _ => {},
    }
}

#[verifier::rlimit(100)]
#[verifier::spinoff_prover]
proof fn lemma_dtz_rt_date_time(v: DateTimeTzOffset)
    requires
        v is DateTime,
        v.wf(),
    ensures
        spec_consume_date_time_tz(dtz_text(v), 0) == Ok::<(DateTimeTzOffset, int), ErrorReason>(
            (v, dtz_text(v).len() as int),
        ),
{
    let s = dtz_text(v);
    match v {
        DateTimeTzOffset::DateTime(d, t) => {
            let n1 = date_text(d).len() as int;
            let n2 = time_text(t).len() as int;
            assert(s =~= date_text(d) + time_text(t));
            lemma_time_starts_with_t(t);
            assert(s.subrange(0, n1) =~= date_text(d));
            assert(s[n1] == time_text(t)[0] && time_text(t)[0] == UC_T);
            lemma_date_rt(s, d);
            lemma_date_starts_with_marker(d);
            let s1 = s.skip(n1);
            assert(s1.subrange(0, n2) =~= s.subrange(n1, n1 + n2));
            assert(s.subrange(n1, n1 + n2) =~= time_text(t));
            assert(s1.len() == n2);
            lemma_time_rt(s1, t);
            let s2 = s1.skip(n2);
            assert(s2 =~= Seq::<u8>::empty());
            assert(spec_dtz_after_time(s2, Some(d), Some(t), 0) == Ok::<
                (DateTimeTzOffset, int),
                ErrorReason,
            >((v, 0)));
            assert(spec_dtz_after_date(s1, Some(d), 0) == Ok::<(DateTimeTzOffset, int), ErrorReason>(
                (v, n2),
            ));
        },
        _ => {},
    }
}

#[verifier::rlimit(100)]
#[verifier::spinoff_prover]
proof fn lemma_dtz_rt_date_tz(v: DateTimeTzOffset)
    requires
        v is DateTz,
        v.wf(),
    ensures
        spec_consume_date_time_tz(dtz_text(v), 0) == Ok::<(DateTimeTzOffset, int), ErrorReason>(
            (v, dtz_text(v).len() as int),
        ),
{
    let s = dtz_text(v);
    match v {
        DateTimeTzOffset::DateTz(d, z) => {
            let n1 = date_text(d).len() as int;
            let zt = tz_text(z.h as int, z.m as int);
            let n3 = zt.len() as int;
            assert(s =~= date_text(d) + zt);
            lemma_tz_starts_in_set(z.h as int, z.m as int);
            assert(s.subrange(0, n1) =~= date_text(d));
            assert(s[n1] == zt[0]);
            assert(tz_or_end(s[n1]));
            lemma_date_rt(s, d);
            lemma_date_starts_with_marker(d);
            let s1 = s.skip(n1);
            assert(s1.len() == n3);
            assert(s1[0] == zt[0] && s1[0] != UC_T && s1[0] != COMMA && s1[0] != CLOSE_BRACKET);
            assert(s1.subrange(0, n3) =~= s.subrange(n1, n1 + n3));
            assert(s.subrange(n1, n1 + n3) =~= zt);
            lemma_tz_rt(s1, z.h as int, z.m as int);
            let s2 = s1.skip(n3);
            assert(s2 =~= Seq::<u8>::empty());
            assert(spec_dtz_after_time(s1, Some(d), None::<Time>, 0) == Ok::<
                (DateTimeTzOffset, int),
                ErrorReason,
            >((v, n3)));
            assert(spec_dtz_after_date(s1, Some(d), 0) == Ok::<(DateTimeTzOffset, int), ErrorReason>(
                (v, n3),
            ));
        },
        _ => {},
    }
}

#[verifier::rlimit(100)]
#[verifier::spinoff_prover]
proof fn lemma_dtz_rt_date_time_tz(v: DateTimeTzOffset)
    requires
        v is DateTimeTz,
        v.wf(),
    ensures
        spec_consume_date_time_tz(dtz_text(v), 0) == Ok::<(DateTimeTzOffset, int), ErrorReason>(
            (v, dtz_text(v).len() as int),
        ),
{
    let s = dtz_text(v);
    match v {
        DateTimeTzOffset::DateTimeTz(d, t, z) => {
            let n1 = date_text(d).len() as int;
            let n2 = time_text(t).len() as int;
            let zt = tz_text(z.h as int, z.m as int);
            let n3 = zt.len() as int;
            assert(s =~= date_text(d) + time_text(t) + zt);
            lemma_time_starts_with_t(t);
            lemma_tz_starts_in_set(z.h as int, z.m as int);
            assert(s.subrange(0, n1) =~= date_text(d));
            assert(s[n1] == time_text(t)[0] && time_text(t)[0] == UC_T);
            lemma_date_rt(s, d);
            lemma_date_starts_with_marker(d);
            let s1 = s.skip(n1);
            assert(s1.subrange(0, n2) =~= s.subrange(n1, n1 + n2));
            assert(s.subrange(n1, n1 + n2) =~= time_text(t));
            assert(s1.len() == n2 + n3);
            assert(s1[n2] == zt[0]);
            assert(tz_or_end(s1[n2]));
            lemma_time_rt(s1, t);
            let s2 = s1.skip(n2);
            assert(s2.len() == n3);
            assert(s2[0] == zt[0] && s2[0] != UC_T && s2[0] != COMMA && s2[0] != CLOSE_BRACKET);
            assert(s2.subrange(0, n3) =~= s1.subrange(n2, n2 + n3));
            assert(s1.subrange(n2, n2 + n3) =~= zt);
            lemma_tz_rt(s2, z.h as int, z.m as int);
            assert(s2.skip(n3) =~= Seq::<u8>::empty());
            assert(spec_dtz_after_time(s2, Some(d), Some(t), 0) == Ok::<
                (DateTimeTzOffset, int),
                ErrorReason,
            >((v, n3)));
            assert(spec_dtz_after_date(s1, Some(d), 0) == Ok::<(DateTimeTzOffset, int), ErrorReason>(
                (v, n2 + n3),
            ));
        },
        _ => {},
    }
}

#[verifier::rlimit(100)]
#[verifier::spinoff_prover]
proof fn lemma_dtz_rt_time(v: DateTimeTzOffset)
    requires
        v is Time,
        v.wf(),
    ensures
        spec_consume_date_time_tz(dtz_text(v), 0) == Ok::<(DateTimeTzOffset, int), ErrorReason>(
            (v, dtz_text(v).len() as int),
        ),
{
    let s = dtz_text(v);
    match v {
        DateTimeTzOffset::Time(t) => {
            assert(s =~= time_text(t));
            lemma_time_starts_with_t(t);
            assert(s[0] == UC_T && s[0] != UC_D);
            assert(s.subrange(0, s.len() as int) =~= s);
            lemma_time_rt(s, t);
            let s2 = s.skip(time_text(t).len() as int);
            assert(s2 =~= Seq::<u8>::empty());
            assert(spec_dtz_after_time(s2, None::<Date>, Some(t), 0) == Ok::<
                (DateTimeTzOffset, int),
                ErrorReason,
            >((v, 0)));
        },
        _ => {},
    }
}

#[verifier::rlimit(100)]
#[verifier::spinoff_prover]
proof fn lemma_dtz_rt_time_tz(v: DateTimeTzOffset)
    requires
        v is TimeTz,
        v.wf(),
    ensures
        spec_consume_date_time_tz(dtz_text(v), 0) == Ok::<(DateTimeTzOffset, int), ErrorReason>(
            (v, dtz_text(v).len() as int),
        ),
{
    let s = dtz_text(v);
    match v {
        DateTimeTzOffset::TimeTz(t, z) => {
            let n2 = time_text(t).len() as int;
            let zt = tz_text(z.h as int, z.m as int);
            let n3 = zt.len() as int;
            assert(s =~= time_text(t) + zt);
            lemma_time_starts_with_t(t);
            lemma_tz_starts_in_set(z.h as int, z.m as int);
            assert(s[0] == time_text(t)[0] && time_text(t)[0] == UC_T && s[0] != UC_D);
            assert(s.subrange(0, n2) =~= time_text(t));
            assert(s.len() == n2 + n3);
            assert(s[n2] == zt[0]);
            assert(tz_or_end(s[n2]));
            lemma_time_rt(s, t);
            let s2 = s.skip(n2);
            assert(s2.len() == n3);
            assert(s2[0] == zt[0] && s2[0] != UC_T && s2[0] != COMMA && s2[0] != CLOSE_BRACKET);
            assert(s2.subrange(0, n3) =~= s.subrange(n2, n2 + n3));
            assert(s.subrange(n2, n2 + n3) =~= zt);
            lemma_tz_rt(s2, z.h as int, z.m as int);
            assert(s2.skip(n3) =~= Seq::<u8>::empty());
            assert(spec_dtz_after_time(s2, None::<Date>, Some(t), 0) == Ok::<
                (DateTimeTzOffset, int),
                ErrorReason,
            >((v, n3)));
        },
        _ => {},
    }
}

/// Decoding the text the encoder emits for any well-formed composite
/// yields the same value back, consuming exactly that text:
/// `decode(encode(v)) == v` for dates, times and offsets.
pub proof fn lemma_date_time_round_trip(v: DateTimeTzOffset)
    requires
        v.wf(),
    ensures
        spec_consume_date_time_tz(dtz_text(v), 0) == Ok::<(DateTimeTzOffset, int), ErrorReason>(
            (v, dtz_text(v).len() as int),
        ),
{
    match v {
        DateTimeTzOffset::Date(..) => lemma_dtz_rt_date(v),
        DateTimeTzOffset::DateTime(..) => lemma_dtz_rt_date_time(v),
        DateTimeTzOffset::DateTz(..) => lemma_dtz_rt_date_tz(v),
        DateTimeTzOffset::DateTimeTz(..) => lemma_dtz_rt_date_time_tz(v),
        DateTimeTzOffset::Time(..) => lemma_dtz_rt_time(v),
        DateTimeTzOffset::TimeTz(..) => lemma_dtz_rt_time_tz(v),
    }
}

/// A date's text opens with `D`, never with `T`.
proof fn lemma_date_starts_with_marker(d: Date)
    ensures
        date_text(d).len() >= 5,
        date_text(d)[0] == UC_D,
{
    match d {
        Date::Year { y } => {
            assert(date_text(d) =~= year_text(y as int));
        },
        Date::YearMonth { y, mo } => {
            assert(date_text(d) =~= year_text(y as int) + month_text(mo as int));
            assert(date_text(d)[0] == year_text(y as int)[0]);
        },
        Date::YearMonthDay { y, mo, d: dd } => {
            assert(date_text(d) =~= year_text(y as int) + month_text(mo as int) + day_text(
                dd as int,
            ));
            assert(date_text(d)[0] == year_text(y as int)[0]);
        },
        Date::YearWeek { y, w } => {
            assert(date_text(d) =~= year_text(y as int) + week_text(w as int));
            assert(date_text(d)[0] == year_text(y as int)[0]);
        },
        Date::YearWeekDay { y, w, d: dd } => {
            assert(date_text(d) =~= year_text(y as int) + week_text(w as int) + weekday_text(
                dd as int,
            ));
            assert(date_text(d)[0] == year_text(y as int)[0]);
        },
    }
}

/// A time's text opens with `T`.
#[verifier::rlimit(100)]
#[verifier::spinoff_prover]
proof fn lemma_time_starts_with_t(t: Time)
    ensures
        time_text(t).len() >= 3,
        time_text(t)[0] == UC_T,
{
    match t {
        Time::Hour { h } => {
            assert(time_text(t) =~= hour_text(h as int));
        },
        Time::HourMinute { h, m } => {
            assert(time_text(t) =~= hour_text(h as int) + minute_text(m as int));
            assert(time_text(t)[0] == hour_text(h as int)[0]);
        },
        Time::HourMinuteSecond { h, m, s } => {
            assert(time_text(t) =~= hour_text(h as int) + minute_text(m as int) + second_text(
                s as int,
            ));
            assert(time_text(t)[0] == hour_text(h as int)[0]);
        },
        Time::HourMinuteMillisecond { h, m, ms } => {
            assert(time_text(t) =~= hour_text(h as int) + minute_text(m as int) + ms_text(
                ms as int,
            ));
            assert(time_text(t)[0] == hour_text(h as int)[0]);
        },
        Time::HourMinuteMicrosecond { h, m, us } => {
            assert(time_text(t) =~= hour_text(h as int) + minute_text(m as int) + us_text(
                us as int,
            ));
            assert(time_text(t)[0] == hour_text(h as int)[0]);
        },
        Time::HourMinuteNanosecond { h, m, ns } => {
            assert(time_text(t) =~= hour_text(h as int) + minute_text(m as int) + ns_text(
                ns as int,
            ));
            assert(time_text(t)[0] == hour_text(h as int)[0]);
        },
    }
}

/// An offset's text opens with `Z`, `+` or `~`, never with `T` or a list
/// delimiter.
proof fn lemma_tz_starts_in_set(h: int, m: int)
    requires
        -23 <= h <= 23,
        0 <= m <= 59,
    ensures
        tz_text(h, m).len() >= 1,
        tz_text(h, m)[0] == UC_Z || tz_text(h, m)[0] == PLUS || tz_text(h, m)[0] == TILDE,
        tz_or_end(tz_text(h, m)[0]),
{
    let mag = crate::grammar::abs(h);
    if h == 0 && m == 0 {
        assert(tz_text(h, m) =~= seq![UC_Z]);
    } else {
        let sign: u8 = if h >= 0 {
            PLUS
        } else {
            TILDE
        };
        let mins: Seq<u8> = if m > 0 {
            seq![COLON] + pad2(m as nat)
        } else {
            Seq::<u8>::empty()
        };
        assert(tz_text(h, m) =~= seq![sign] + pad2(mag as nat) + mins);
        assert(tz_text(h, m)[0] == sign);
    }
}

} // verus!
