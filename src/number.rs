use vstd::prelude::*;
use vstd::string::*;

use crate::error::ParseError;

verus! {

/// A decimal accumulator at or above this value takes no further digit.
pub const DECIMAL_LIMIT: u32 = 429_496_720;

/// At most this many digits follow the `0x` of a hexadecimal word.
pub const MAX_HEX_DIGITS: usize = 8;

pub open spec fn is_dec_digit(c: char) -> bool {
    '0' <= c && c <= '9'
}

pub open spec fn is_hex_digit(c: char) -> bool {
    is_dec_digit(c) || ('a' <= c && c <= 'f') || ('A' <= c && c <= 'F')
}

pub open spec fn dec_digit_value(c: char) -> int {
    c as int - '0' as int
}

pub open spec fn hex_digit_value(c: char) -> int {
    if is_dec_digit(c) {
        c as int - '0' as int
    } else if 'a' <= c && c <= 'f' {
        c as int - 'a' as int + 10
    } else {
        c as int - 'A' as int + 10
    }
}

/// Decimal decoding, left to right: each character must be a digit, and the
/// value read so far must stay below `DECIMAL_LIMIT` before a digit is added.
pub open spec fn decimal_value(s: Seq<char>) -> Result<u32, ParseError>
    decreases s.len(),
{
    if s.len() == 0 {
        Ok(0)
    } else if s.len() == 1 {
        if is_dec_digit(s[0]) {
            Ok(dec_digit_value(s[0]) as u32)
        } else {
            Err(ParseError::InvalidDecimalChar)
        }
    } else {
        match decimal_value(s.drop_last()) {
            Err(e) => Err(e),
            Ok(v) => if !is_dec_digit(s.last()) {
                Err(ParseError::InvalidDecimalChar)
            } else if v >= DECIMAL_LIMIT {
                Err(ParseError::NumberTooLarge)
            } else {
                Ok((v * 10 + dec_digit_value(s.last())) as u32)
            },
        }
    }
}

/// Hexadecimal decoding of the digits after `0x`, left to right.
pub open spec fn hex_value(s: Seq<char>) -> Result<u32, ParseError>
    decreases s.len(),
{
    if s.len() == 0 {
        Ok(0)
    } else {
        match hex_value(s.drop_last()) {
            Err(e) => Err(e),
            Ok(v) => if !is_hex_digit(s.last()) {
                Err(ParseError::InvalidHexChar)
            } else {
                Ok((v * 16 + hex_digit_value(s.last())) as u32)
            },
        }
    }
}

pub open spec fn has_hex_prefix(s: Seq<char>) -> bool {
    s.len() >= 2 && s[0] == '0' && s[1] == 'x'
}

/// The value of one payload word, or why it has none.
pub open spec fn number_value(s: Seq<char>) -> Result<u32, ParseError> {
    if has_hex_prefix(s) {
        if s.len() - 2 > MAX_HEX_DIGITS {
            Err(ParseError::NumberTooLarge)
        } else {
            hex_value(s.skip(2))
        }
    } else if s.len() >= 1 && is_dec_digit(s[0]) {
        decimal_value(s)
    } else {
        Err(ParseError::NotHexOrDecimal)
    }
}

pub open spec fn pow16(n: nat) -> nat
    decreases n,
{
    if n == 0 {
        1
    } else {
        16 * pow16((n - 1) as nat)
    }
}

proof fn lemma_pow16_bound(n: nat)
    requires
        n <= 8,
    ensures
        pow16(n) <= 0x1_0000_0000,
    decreases 8 - n,
{
    if n < 8 {
        lemma_pow16_bound(n + 1);
        assert(pow16(n + 1) == 16 * pow16(n));
    } else {
        reveal_with_fuel(pow16, 9);
    }
}

/// Once a prefix of at least one character is rejected, the whole word is.
proof fn lemma_decimal_error_extends(s: Seq<char>, k: int)
    requires
        1 <= k <= s.len(),
        decimal_value(s.take(k)) is Err,
    ensures
        decimal_value(s) == decimal_value(s.take(k)),
    decreases s.len() - k,
{
    if k < s.len() {
        assert(s.take(k + 1).drop_last() =~= s.take(k));
        lemma_decimal_error_extends(s, k + 1);
    } else {
        assert(s.take(k) =~= s);
    }
}

proof fn lemma_hex_error_extends(s: Seq<char>, k: int)
    requires
        0 <= k <= s.len(),
        hex_value(s.take(k)) is Err,
    ensures
        hex_value(s) == hex_value(s.take(k)),
    decreases s.len() - k,
{
    if k < s.len() {
        assert(s.take(k + 1).drop_last() =~= s.take(k));
        lemma_hex_error_extends(s, k + 1);
    } else {
        assert(s.take(k) =~= s);
    }
}

fn dec_digit(c: char) -> (r: Option<u32>)
    ensures
        is_dec_digit(c) <==> r is Some,
        r matches Some(d) ==> d as int == dec_digit_value(c),
{
    if '0' <= c && c <= '9' {
        Some(c as u32 - '0' as u32)
    } else {
        None
    }
}

fn hex_digit(c: char) -> (r: Option<u32>)
    ensures
        is_hex_digit(c) <==> r is Some,
        r matches Some(d) ==> d as int == hex_digit_value(c) && d < 16,
{
    if '0' <= c && c <= '9' {
        Some(c as u32 - '0' as u32)
    } else if 'a' <= c && c <= 'f' {
        Some(c as u32 - 'a' as u32 + 10)
    } else if 'A' <= c && c <= 'F' {
        Some(c as u32 - 'A' as u32 + 10)
    } else {
        None
    }
}

/// Decodes one payload word, decimal (`42`) or hexadecimal (`0x2a`, `0X` is
/// not a prefix), into a 32-bit value.
pub fn bytes_to_number(s: &str) -> (r: Result<u32, ParseError>)
    ensures
        r == number_value(s@),
{
    let n = s.unicode_len();
    if n >= 2 && s.get_char(0) == '0' && s.get_char(1) == 'x' {
        if n - 2 > MAX_HEX_DIGITS {
            return Err(ParseError::NumberTooLarge);
        }
        let ghost digits = s@.skip(2);
        let mut result: u32 = 0;
        let mut i: usize = 2;
        while i < n
            invariant
                n == s@.len(),
                n - 2 <= MAX_HEX_DIGITS,
                has_hex_prefix(s@),
                2 <= i <= n,
                digits == s@.skip(2),
                hex_value(digits.take(i - 2)) == Ok::<u32, ParseError>(result),
                (result as nat) < pow16((i - 2) as nat),
            decreases n - i,
        {
            let c = s.get_char(i);
            proof {
                assert(digits.take(i - 1).drop_last() =~= digits.take(i - 2));
                assert(digits.take(i - 1).last() == c);
            }
            match hex_digit(c) {
                Some(d) => {
                    proof {
                        lemma_pow16_bound((i - 1) as nat);
                        let p = pow16((i - 2) as nat);
                        assert(pow16((i - 1) as nat) == 16 * p);
                        assert(result * 16 + d < 16 * p) by (nonlinear_arith)
                            requires
                                result < p,
                                d < 16,
                        ;
                    }
                    result = result * 16 + d;
                },
                None => {
                    proof {
                        assert(hex_value(digits.take(i - 1)) == Err::<u32, ParseError>(
                            ParseError::InvalidHexChar,
                        ));
                        lemma_hex_error_extends(digits, i - 1);
                    }
                    return Err(ParseError::InvalidHexChar);
                },
            }
            i = i + 1;
        }
        proof {
            assert(digits.take(n - 2) =~= digits);
        }
        Ok(result)
    } else if n >= 1 {
        let first = dec_digit(s.get_char(0));
        match first {
            None => Err(ParseError::NotHexOrDecimal),
            Some(d0) => {
                let mut result: u32 = d0;
                let mut i: usize = 1;
                proof {
                    assert(s@.take(1).len() == 1);
                    assert(s@.take(1)[0] == s@[0]);
                }
                while i < n
                    invariant
                        n == s@.len(),
                        1 <= i <= n,
                        !has_hex_prefix(s@),
                        is_dec_digit(s@[0]),
                        decimal_value(s@.take(i as int)) == Ok::<u32, ParseError>(result),
                    decreases n - i,
                {
                    let c = s.get_char(i);
                    proof {
                        assert(s@.take(i + 1).drop_last() =~= s@.take(i as int));
                        assert(s@.take(i + 1).last() == c);
                    }
                    match dec_digit(c) {
                        None => {
                            proof {
                                assert(decimal_value(s@.take(i + 1)) == Err::<u32, ParseError>(
                                    ParseError::InvalidDecimalChar,
                                ));
                                lemma_decimal_error_extends(s@, i + 1);
                            }
                            return Err(ParseError::InvalidDecimalChar);
                        },
                        Some(d) => {
                            if result >= DECIMAL_LIMIT {
                                proof {
                                    assert(decimal_value(s@.take(i + 1)) == Err::<u32, ParseError>(
                                        ParseError::NumberTooLarge,
                                    ));
                                    lemma_decimal_error_extends(s@, i + 1);
                                }
                                return Err(ParseError::NumberTooLarge);
                            }
                            result = result * 10 + d;
                        },
                    }
                    i = i + 1;
                }
                proof {
                    assert(s@.take(n as int) =~= s@);
                }
                Ok(result)
            },
        }
    } else {
        Err(ParseError::NotHexOrDecimal)
    }
}

/// No payload word is ever refused for the number of words in its line.
pub proof fn lemma_number_error_kind(s: Seq<char>)
    ensures
        number_value(s) != Err::<u32, ParseError>(ParseError::TooManyArguments),
{
    if has_hex_prefix(s) {
        lemma_hex_error_kind(s.skip(2));
    } else {
        lemma_decimal_error_kind(s);
    }
}

proof fn lemma_hex_error_kind(s: Seq<char>)
    ensures
        hex_value(s) != Err::<u32, ParseError>(ParseError::TooManyArguments),
    decreases s.len(),
{
    if s.len() > 0 {
        lemma_hex_error_kind(s.drop_last());
    }
}

proof fn lemma_decimal_error_kind(s: Seq<char>)
    ensures
        decimal_value(s) != Err::<u32, ParseError>(ParseError::TooManyArguments),
    decreases s.len(),
{
    if s.len() > 1 {
        lemma_decimal_error_kind(s.drop_last());
    }
}

/// The character of digit `d` (below 16), lower case for digits above 9.
pub open spec fn digit_char(d: nat) -> char {
    if d < 10 {
        (d + 48) as char
    } else {
        (d + 87) as char
    }
}

/// The canonical decimal spelling of `v`: no sign, no leading zero.
pub open spec fn decimal_digits(v: nat) -> Seq<char>
    decreases v,
{
    if v < 10 {
        seq![digit_char(v)]
    } else {
        decimal_digits(v / 10).push(digit_char(v % 10))
    }
}

/// The canonical lower-case hexadecimal spelling of `v`, without prefix.
pub open spec fn hex_digits(v: nat) -> Seq<char>
    decreases v,
{
    if v < 16 {
        seq![digit_char(v)]
    } else {
        hex_digits(v / 16).push(digit_char(v % 16))
    }
}

proof fn lemma_digit_char(d: nat)
    requires
        d < 16,
    ensures
        is_hex_digit(digit_char(d)),
        hex_digit_value(digit_char(d)) == d,
        d < 10 ==> is_dec_digit(digit_char(d)) && dec_digit_value(digit_char(d)) == d,
        digit_char(d) != 'x',
{
}

proof fn lemma_decimal_digits(v: nat)
    requires
        v < DECIMAL_LIMIT,
    ensures
        decimal_digits(v).len() >= 1,
        forall|k: int| 0 <= k < decimal_digits(v).len() ==> is_dec_digit(#[trigger] decimal_digits(v)[k]),
        decimal_value(decimal_digits(v)) == Ok::<u32, ParseError>(v as u32),
    decreases v,
{
    lemma_digit_char(v % 10);
    if v >= 10 {
        lemma_decimal_digits(v / 10);
        let s = decimal_digits(v);
        assert(s.drop_last() =~= decimal_digits(v / 10));
        assert forall|k: int| 0 <= k < s.len() implies is_dec_digit(#[trigger] s[k]) by {
            if k < s.len() - 1 {
                assert(s[k] == decimal_digits(v / 10)[k]);
            }
        }
    } else {
        lemma_digit_char(v);
    }
}

proof fn lemma_hex_digits(v: nat, n: nat)
    requires
        v < pow16(n),
    ensures
        1 <= hex_digits(v).len(),
        v > 0 ==> hex_digits(v).len() <= n,
        v < 0x1_0000_0000 ==> hex_value(hex_digits(v)) == Ok::<u32, ParseError>(v as u32),
    decreases v,
{
    lemma_digit_char(v % 16);
    if v >= 16 {
        assert(n > 0);
        assert(v / 16 < pow16((n - 1) as nat)) by {
            assert(pow16(n) == 16 * pow16((n - 1) as nat));
        }
        lemma_hex_digits(v / 16, (n - 1) as nat);
        let s = hex_digits(v);
        assert(s.drop_last() =~= hex_digits(v / 16));
        assert((v / 16) * 16 + v % 16 == v) by (nonlinear_arith);
        if v < 0x1_0000_0000 {
            let q = (v / 16) as u32;
            assert(q as nat == v / 16);
            assert(hex_value(s.drop_last()) == Ok::<u32, ParseError>(q));
            assert(s.last() == digit_char(v % 16));
            assert(hex_value(s) == Ok::<u32, ParseError>((q * 16 + hex_digit_value(s.last())) as u32));
            assert(q * 16 + hex_digit_value(s.last()) == v);
            assert(hex_value(s) == Ok::<u32, ParseError>(v as u32));
        }
    } else {
        lemma_digit_char(v);
        assert(hex_digits(v).drop_last() =~= Seq::<char>::empty());
        assert(hex_value(Seq::<char>::empty()) == Ok::<u32, ParseError>(0));
        assert(hex_value(hex_digits(v)) == Ok::<u32, ParseError>(v as u32));
        if v > 0 && n == 0 {
            assert(pow16(0) == 1);
        }
    }
}

/// Writing a value below `DECIMAL_LIMIT` in canonical decimal and decoding
/// it gives the value back.
pub proof fn law_decimal_round_trip(v: u32)
    requires
        v < DECIMAL_LIMIT,
    ensures
        number_value(decimal_digits(v as nat)) == Ok::<u32, ParseError>(v),
{
    lemma_decimal_digits(v as nat);
    let s = decimal_digits(v as nat);
    assert(is_dec_digit(s[0]));
    if s.len() >= 2 {
        assert(is_dec_digit(s[1]));
    }
}

/// Writing any 32-bit value as `0x` and its lower-case hexadecimal digits
/// and decoding it gives the value back.
pub proof fn law_hex_round_trip(v: u32)
    ensures
        number_value(seq!['0', 'x'] + hex_digits(v as nat)) == Ok::<u32, ParseError>(v),
{
    lemma_pow16_bound(8);
    reveal_with_fuel(pow16, 9);
    lemma_hex_digits(v as nat, 8);
    let s = seq!['0', 'x'] + hex_digits(v as nat);
    assert(s.skip(2) =~= hex_digits(v as nat));
    assert(s[0] == '0' && s[1] == 'x');
}

} // verus!
