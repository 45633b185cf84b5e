//! Numbers as text: the decimal and hexadecimal digits of an integer, and the
//! integer that a digit string stands for.

use vstd::prelude::*;
use vstd::string::*;
use vstd::utf8::*;

verus! {

/// The lower-case digit for a value below sixteen.
pub open spec fn digit_char(value: int) -> char {
    if value < 10 {
        (48 + value) as char
    } else {
        (87 + value) as char
    }
}

/// The decimal digits of `value`, without leading zeros.
pub open spec fn decimal(value: nat) -> Seq<char>
    decreases value,
{
    if value < 10 {
        seq![digit_char(value as int)]
    } else {
        decimal(value / 10).push(digit_char((value % 10) as int))
    }
}

fn digit_text(value: u8) -> (text: &'static str)
    requires
        value < 16,
    ensures
        text@ == seq![digit_char(value as int)],
{
    proof {
        reveal_strlit("0");
        reveal_strlit("1");
        reveal_strlit("2");
        reveal_strlit("3");
        reveal_strlit("4");
        reveal_strlit("5");
        reveal_strlit("6");
        reveal_strlit("7");
        reveal_strlit("8");
        reveal_strlit("9");
        reveal_strlit("a");
        reveal_strlit("b");
        reveal_strlit("c");
        reveal_strlit("d");
        reveal_strlit("e");
        reveal_strlit("f");
    }
    if value == 0 {
        "0"
    } else if value == 1 {
        "1"
    } else if value == 2 {
        "2"
    } else if value == 3 {
        "3"
    } else if value == 4 {
        "4"
    } else if value == 5 {
        "5"
    } else if value == 6 {
        "6"
    } else if value == 7 {
        "7"
    } else if value == 8 {
        "8"
    } else if value == 9 {
        "9"
    } else if value == 10 {
        "a"
    } else if value == 11 {
        "b"
    } else if value == 12 {
        "c"
    } else if value == 13 {
        "d"
    } else if value == 14 {
        "e"
    } else {
        "f"
    }
}

/// The decimal digits of `value`.
pub fn decimal_text(value: u64) -> (text: String)
    ensures
        text@ == decimal(value as nat),
    decreases value,
{
    if value < 10 {
        digit_text(value as u8).to_owned()
    } else {
        let mut text = decimal_text(value / 10);
        text.append(digit_text((value % 10) as u8));
        assert(text@ =~= decimal(value as nat));
        text
    }
}

/// The decimal digits of a wide `value`.
pub fn wide_decimal_text(value: u128) -> (text: String)
    ensures
        text@ == decimal(value as nat),
    decreases value,
{
    if value < 10 {
        digit_text(value as u8).to_owned()
    } else {
        let mut text = wide_decimal_text(value / 10);
        text.append(digit_text((value % 10) as u8));
        assert(text@ =~= decimal(value as nat));
        text
    }
}

/// The lower-case hexadecimal digits of `value`, without leading zeros.
pub open spec fn hexadecimal(value: nat) -> Seq<char>
    decreases value,
{
    if value < 16 {
        seq![digit_char(value as int)]
    } else {
        hexadecimal(value / 16).push(digit_char((value % 16) as int))
    }
}

/// The two hexadecimal digits of a byte.
pub open spec fn hex_pair(value: u8) -> Seq<char> {
    seq![digit_char((value / 16) as int), digit_char((value % 16) as int)]
}

/// `value` as `0x` and at least four hexadecimal digits.
pub open spec fn hex_number(value: u32) -> Seq<char> {
    "0x"@ + if value < 65536 {
        hex_pair((value / 256) as u8) + hex_pair((value % 256) as u8)
    } else {
        hexadecimal(value as nat)
    }
}

/// The two hexadecimal digits of `value`, appended to `text`.
pub fn append_hex_pair(text: &mut String, value: u8)
    ensures
        final(text)@ == old(text)@ + hex_pair(value),
{
    text.append(digit_text(value / 16));
    text.append(digit_text(value % 16));
    assert(text@ =~= old(text)@ + hex_pair(value));
}

fn hexadecimal_text(value: u32) -> (text: String)
    ensures
        text@ == hexadecimal(value as nat),
    decreases value,
{
    if value < 16 {
        digit_text(value as u8).to_owned()
    } else {
        let mut text = hexadecimal_text(value / 16);
        text.append(digit_text((value % 16) as u8));
        assert(text@ =~= hexadecimal(value as nat));
        text
    }
}

/// `value` as `0x` and at least four hexadecimal digits.
pub fn hex_number_text(value: u32) -> (text: String)
    ensures
        text@ == hex_number(value),
{
    let mut text = "0x".to_owned();
    if value < 65536 {
        append_hex_pair(&mut text, (value / 256) as u8);
        append_hex_pair(&mut text, (value % 256) as u8);
        assert(text@ =~= hex_number(value));
    } else {
        text.append(hexadecimal_text(value).as_str());
    }
    text
}

/// `prefix` followed by the decimal digits of `value`.
pub fn with_decimal(prefix: &str, value: u64) -> (text: String)
    ensures
        text@ == prefix@ + decimal(value as nat),
{
    let mut text = prefix.to_owned();
    text.append(decimal_text(value).as_str());
    text
}

/// `prefix` followed by `value` in hexadecimal.
pub fn with_hex(prefix: &str, value: u32) -> (text: String)
    ensures
        text@ == prefix@ + hex_number(value),
{
    let mut text = prefix.to_owned();
    text.append(hex_number_text(value).as_str());
    text
}

/// `value` as `0x` and its hexadecimal digits.
pub fn plain_hex_text(value: u32) -> (text: String)
    ensures
        text@ == "0x"@ + hexadecimal(value as nat),
{
    let mut text = "0x".to_owned();
    text.append(hexadecimal_text(value).as_str());
    text
}

/// The two upper-case hexadecimal digits of a byte.
pub open spec fn upper_hex_pair(value: u8) -> Seq<char> {
    seq![upper_digit_char((value / 16) as int), upper_digit_char((value % 16) as int)]
}

/// The upper-case digit for a value below sixteen.
pub open spec fn upper_digit_char(value: int) -> char {
    if value < 10 {
        (48 + value) as char
    } else {
        (55 + value) as char
    }
}

fn upper_digit_text(value: u8) -> (text: &'static str)
    requires
        value < 16,
    ensures
        text@ == seq![upper_digit_char(value as int)],
{
    proof {
        reveal_strlit("A");
        reveal_strlit("B");
        reveal_strlit("C");
        reveal_strlit("D");
        reveal_strlit("E");
        reveal_strlit("F");
    }
    if value < 10 {
        digit_text(value)
    } else if value == 10 {
        "A"
    } else if value == 11 {
        "B"
    } else if value == 12 {
        "C"
    } else if value == 13 {
        "D"
    } else if value == 14 {
        "E"
    } else {
        "F"
    }
}

/// The two upper-case hexadecimal digits of `value`, appended to `text`.
pub fn append_upper_hex_pair(text: &mut String, value: u8)
    ensures
        final(text)@ == old(text)@ + upper_hex_pair(value),
{
    text.append(upper_digit_text(value / 16));
    text.append(upper_digit_text(value % 16));
    assert(text@ =~= old(text)@ + upper_hex_pair(value));
}

/// The value of a byte that is a digit in a radix of at most sixteen.
pub open spec fn digit_value(byte: u8, radix: int) -> Option<int> {
    let value = if 48 <= byte <= 57 {
        byte - 48
    } else if 65 <= byte <= 70 {
        byte - 55
    } else if 97 <= byte <= 102 {
        byte - 87
    } else {
        99
    };
    if value < radix {
        Some(value)
    } else {
        None
    }
}

/// The number that a string of digits stands for, if all bytes are digits.
pub open spec fn digits_value(digits: Seq<u8>, radix: int) -> Option<int>
    decreases digits.len(),
{
    if digits.len() == 0 {
        Some(0)
    } else {
        match (digits_value(digits.drop_last(), radix), digit_value(digits.last(), radix)) {
            (Some(high), Some(low)) => Some(high * radix + low),
            _ => None,
        }
    }
}

/// The unsigned number that a text stands for: an optional plus sign and at
/// least one digit, with a value of at most `max`.
pub open spec fn number_value(text: Seq<u8>, radix: int, max: int) -> Option<int> {
    let digits = if text.len() > 0 && text[0] == 43 {
        text.skip(1)
    } else {
        text
    };
    if digits.len() == 0 {
        None
    } else {
        match digits_value(digits, radix) {
            Some(value) => if value <= max {
                Some(value)
            } else {
                None
            },
            None => None,
        }
    }
}

/// Reads one digit.
pub fn parse_digit(byte: u8, radix: u64) -> (value: Option<u64>)
    requires
        radix <= 16,
    ensures
        match value {
            Some(value) => digit_value(byte, radix as int) == Some(value as int),
            None => digit_value(byte, radix as int) is None,
        },
{
    let value: u64 = if 48 <= byte && byte <= 57 {
        (byte - 48) as u64
    } else if 65 <= byte && byte <= 70 {
        (byte - 55) as u64
    } else if 97 <= byte && byte <= 102 {
        (byte - 87) as u64
    } else {
        99
    };
    if value < radix {
        Some(value)
    } else {
        None
    }
}

proof fn lemma_digits_value_bad(digits: Seq<u8>, radix: int, at: int)
    requires
        0 <= at < digits.len(),
        digit_value(digits[at], radix) is None,
    ensures
        digits_value(digits, radix) is None,
    decreases digits.len(),
{
    if at < digits.len() - 1 {
        lemma_digits_value_bad(digits.drop_last(), radix, at);
    }
}

proof fn lemma_digits_value_grows(digits: Seq<u8>, radix: int, count: int)
    requires
        2 <= radix <= 16,
        0 <= count <= digits.len(),
        digits_value(digits, radix) is Some,
    ensures
        digits_value(digits.take(count), radix) is Some,
        0 <= digits_value(digits.take(count), radix)->0 <= digits_value(digits, radix)->0,
    decreases digits.len(),
{
    if count == digits.len() {
        assert(digits.take(count) =~= digits);
        if count > 0 {
            lemma_digits_value_grows(digits.drop_last(), radix, count - 1);
            assert(digits.drop_last().take(count - 1) =~= digits.drop_last());
            let high = digits_value(digits.drop_last(), radix)->0;
            assert(high * radix >= 0) by (nonlinear_arith)
                requires
                    high >= 0,
                    radix >= 2,
            ;
        }
    } else {
        lemma_digits_value_grows(digits.drop_last(), radix, count);
        assert(digits.drop_last().take(count) =~= digits.take(count));
        let high = digits_value(digits.drop_last(), radix)->0;
        assert(high * radix >= high) by (nonlinear_arith)
            requires
                high >= 0,
                radix >= 2,
        ;
    }
}

/// Reads an unsigned number of at most `max` from a text.
pub fn parse_number(text: &[u8], radix: u64, max: u64) -> (value: Option<u64>)
    requires
        2 <= radix <= 16,
    ensures
        match value {
            Some(value) => number_value(text@, radix as int, max as int) == Some(value as int),
            None => number_value(text@, radix as int, max as int) is None,
        },
{
    let start: usize = if text.len() > 0 && text[0] == 43 {
        1
    } else {
        0
    };
    let ghost digits = text@.skip(start as int);
    assert(start == 0 ==> digits =~= text@);
    if start == text.len() {
        return None;
    }
    let mut value: u128 = 0;
    let mut index: usize = start;
    assert(digits.take(0) =~= Seq::<u8>::empty());
    while index < text.len()
        invariant
            start <= index <= text@.len(),
            start <= 1,
            digits == text@.skip(start as int),
            digits_value(digits.take(index - start), radix as int) == Some(value as int),
            value <= max,
            2 <= radix <= 16,
            start < text@.len(),
            number_value(text@, radix as int, max as int) == (match digits_value(digits, radix as int) {
                Some(value) => if value <= max {
                    Some(value)
                } else {
                    None
                },
                None => None::<int>,
            }),
        decreases text@.len() - index,
    {
        let ghost next = digits.take(index - start + 1);
        assert(next.drop_last() =~= digits.take(index - start));
        assert(next.last() == text@[index as int]);
        match parse_digit(text[index], radix) {
            None => {
                proof {
                    lemma_digits_value_bad(digits, radix as int, index - start);
                }
                return None;
            },
            Some(low) => {
                assert(value * radix <= max * 16) by (nonlinear_arith)
                    requires
                        0 <= value <= max,
                        2 <= radix <= 16,
                ;
                value = value * radix as u128 + low as u128;
                assert(digits_value(next, radix as int) == Some(value as int));
                if value > max as u128 {
                    proof {
                        if digits_value(digits, radix as int) is Some {
                            lemma_digits_value_grows(digits, radix as int, index - start + 1);
                        }
                    }
                    return None;
                }
            },
        }
        index = index + 1;
    }
    assert(digits.take(index - start) =~= digits);
    Some(value as u64)
}

/// How the standard library's `Debug` shows a string: in quotes, with escapes.
pub uninterp spec fn debug_quoted(text: Seq<char>) -> Seq<char>;

/// Shows a string as `Debug for str` does. Which characters are escaped, and
/// how, is left to that implementation.
#[verifier::external_body]
pub(crate) fn quoted(text: &str) -> (shown: String)
    ensures
        shown@ == debug_quoted(text@),
{
    format!("{text:?}")
}

/// How the standard library describes where bytes stop being UTF-8.
pub uninterp spec fn utf8_fault(bytes: Seq<u8>) -> Seq<char>;

/// Reads bytes as UTF-8 with `String::from_utf8`: the string with these bytes
/// where they are valid, and otherwise the text of the error.
#[verifier::external_body]
pub(crate) fn utf8_text(bytes: Vec<u8>) -> (result: Result<String, String>)
    ensures
        match result {
            Ok(text) => valid_utf8(bytes@) && text@ == decode_utf8(bytes@),
            Err(fault) => !valid_utf8(bytes@) && fault@ == utf8_fault(bytes@),
        },
{
    match String::from_utf8(bytes) {
        Ok(text) => Ok(text),
        Err(fault) => Err(format!("{fault}")),
    }
}

} // verus!
