//! Hexadecimal text.

use crate::text;
use crate::text::utf8_text;
use vstd::prelude::*;
use vstd::slice::slice_subrange;
use vstd::utf8::*;

verus! {

/// Why a text is no hexadecimal data.
#[derive(Clone, Copy, Debug, PartialEq, Eq)]
pub enum HexError {
    /// The text has an odd number of bytes.
    OddLength,
    /// A pair of bytes cuts a character in two.
    NotUtf8,
    /// A pair of bytes is no hexadecimal number.
    NotHexadecimal,
}

/// The value of a hexadecimal digit.
pub open spec fn hex_digit(b: u8) -> Option<u8> {
    if 0x30 <= b <= 0x39 {
        Some((b - 0x30) as u8)
    } else if 0x61 <= b <= 0x66 {
        Some((b - 0x61 + 10) as u8)
    } else if 0x41 <= b <= 0x46 {
        Some((b - 0x41 + 10) as u8)
    } else {
        None
    }
}

/// The number that a pair of bytes writes: two digits, or a plus sign and one digit.
pub open spec fn hex_pair(high: u8, low: u8) -> Result<u8, HexError> {
    let top = if high == 0x2b {
        Some(0u8)
    } else {
        hex_digit(high)
    };
    if !valid_utf8(seq![high, low]) {
        Err(HexError::NotUtf8)
    } else {
        match (top, hex_digit(low)) {
            (Some(h), Some(l)) => Ok((h * 16 + l) as u8),
            _ => Err(HexError::NotHexadecimal),
        }
    }
}

/// The bytes that a row of pairs writes, or the error of the first pair that writes none.
pub open spec fn hex_pairs(bytes: Seq<u8>) -> Result<Seq<u8>, HexError>
    decreases bytes.len(),
{
    if bytes.len() < 2 {
        Ok(Seq::empty())
    } else {
        match hex_pair(bytes[0], bytes[1]) {
            Err(e) => Err(e),
            Ok(first) => match hex_pairs(bytes.skip(2)) {
                Err(e) => Err(e),
                Ok(rest) => Ok(seq![first] + rest),
            },
        }
    }
}

/// The bytes that a hexadecimal text writes.
pub open spec fn hex_decoded(text: Seq<char>) -> Result<Seq<u8>, HexError> {
    let bytes = encode_utf8(text);
    if bytes.len() % 2 != 0 {
        Err(HexError::OddLength)
    } else {
        hex_pairs(bytes)
    }
}

fn read_hex_digit(b: u8) -> (value: Option<u8>)
    ensures
        value == hex_digit(b),
        value matches Some(v) ==> v < 16,
{
    if 0x30 <= b && b <= 0x39 {
        Some(b - 0x30)
    } else if 0x61 <= b && b <= 0x66 {
        Some(b - 0x61 + 10)
    } else if 0x41 <= b && b <= 0x46 {
        Some(b - 0x41 + 10)
    } else {
        None
    }
}

fn read_hex_pair(pair: &[u8]) -> (value: Result<u8, HexError>)
    requires
        pair@.len() == 2,
    ensures
        value == hex_pair(pair@[0], pair@[1]),
{
    assert(pair@ =~= seq![pair@[0], pair@[1]]);
    if utf8_text(pair).is_none() {
        return Err(HexError::NotUtf8);
    }
    let top: Option<u8> = if pair[0] == 0x2b {
        Some(0)
    } else {
        read_hex_digit(pair[0])
    };
    match (top, read_hex_digit(pair[1])) {
        (Some(h), Some(l)) => Ok(h * 16 + l),
        _ => Err(HexError::NotHexadecimal),
    }
}

/// Reads a hexadecimal text, two characters for each byte.
pub fn decode_hex(value: &str) -> (decoded: Result<Vec<u8>, HexError>)
    ensures
        match decoded {
            Ok(bytes) => hex_decoded(value@) == Ok::<Seq<u8>, HexError>(bytes@),
            Err(e) => hex_decoded(value@) == Err::<Seq<u8>, HexError>(e),
        },
{
    let bytes = value.as_bytes();
    let total: usize = bytes.len();
    if total % 2 != 0 {
        return Err(HexError::OddLength);
    }
    let mut output: Vec<u8> = Vec::new();
    let mut index: usize = 0;
    assert(bytes@.skip(0) =~= bytes@);
    while index < total
        invariant
            total == bytes@.len(),
            total % 2 == 0,
            index % 2 == 0,
            index <= total,
            bytes@ == encode_utf8(value@),
            hex_pairs(bytes@) == match hex_pairs(bytes@.skip(index as int)) {
                Ok(rest) => Ok(output@ + rest),
                Err(e) => Err(e),
            },
        decreases total - index,
    {
        let ghost rest = bytes@.skip(index as int);
        let pair = slice_subrange(bytes, index, index + 2);
        assert(pair@[0] == rest[0] && pair@[1] == rest[1]);
        assert(rest.skip(2) =~= bytes@.skip(index + 2));
        match read_hex_pair(pair) {
            Err(e) => {
                return Err(e);
            },
            Ok(byte) => {
                proof {
                    if let Ok(tail) = hex_pairs(rest.skip(2)) {
                        assert(output@ + (seq![byte] + tail) =~= output@.push(byte) + tail);
                    }
                }
                output.push(byte);
                index += 2;
            },
        }
    }
    assert(output@ + Seq::<u8>::empty() =~= output@);
    Ok(output)
}

/// The lower case hexadecimal digit of a value below sixteen.
pub open spec fn hex_char(value: u8) -> char {
    if value < 10 {
        (value + 0x30) as char
    } else {
        (value - 10 + 0x61) as char
    }
}

/// Bytes as lower case hexadecimal text.
pub open spec fn hex_encoded(bytes: Seq<u8>) -> Seq<char> {
    Seq::new(
        2 * bytes.len(),
        |i: int|
            if i % 2 == 0 {
                hex_char(bytes[i / 2] / 16)
            } else {
                hex_char(bytes[i / 2] % 16)
            },
    )
}

fn write_hex_digit(value: u8) -> (c: char)
    requires
        value < 16,
    ensures
        c == hex_char(value),
{
    if value < 10 {
        (value + 0x30) as char
    } else {
        (value - 10 + 0x61) as char
    }
}

/// Writes bytes as lower case hexadecimal text.
pub fn encode_hex(bytes: &[u8]) -> (text: String)
    ensures
        text@ == hex_encoded(bytes@),
{
    let mut text = String::new();
    for i in 0..bytes.len()
        invariant
            text@ =~= hex_encoded(bytes@).take(2 * i),
    {
        text.push(write_hex_digit(bytes[i] / 16));
        text.push(write_hex_digit(bytes[i] % 16));
    }
    assert(text@ =~= hex_encoded(bytes@));
    text
}

/// Hexadecimal text is made of ASCII digits.
proof fn lemma_hex_encoded_bytes(bytes: Seq<u8>)
    ensures
        encode_utf8(hex_encoded(bytes)) =~= Seq::new(
            2 * bytes.len(),
            |i: int| hex_encoded(bytes)[i] as u8,
        ),
{
    is_ascii_chars_encode_utf8(hex_encoded(bytes));
}

/// A number in lower case hexadecimal, without leading zeros.
pub open spec fn hex_number(n: nat) -> Seq<char>
    decreases n,
{
    if n < 16 {
        seq![hex_char(n as u8)]
    } else {
        hex_number(n / 16).push(hex_char((n % 16) as u8))
    }
}

/// Appends a number in lower case hexadecimal.
pub fn push_hex_number(out: &mut String, n: u64)
    ensures
        final(out)@ == old(out)@ + hex_number(n as nat),
    decreases n,
{
    if n >= 16 {
        push_hex_number(out, n / 16);
    }
    out.push(write_hex_digit((n % 16) as u8));
    assert(out@ =~= old(out)@ + hex_number(n as nat));
}

/// The digit that writes a value reads as that value, and is ASCII.
proof fn lemma_hex_char(value: u8)
    requires
        value < 16,
    ensures
        hex_digit(hex_char(value) as u8) == Some(value),
        (hex_char(value) as u8) <= 0x7f,
        hex_char(value) as u8 != 0x2b,
{
}

/// Two ASCII bytes are valid UTF-8.
proof fn lemma_ascii_pair(a: u8, b: u8)
    requires
        a <= 0x7f,
        b <= 0x7f,
    ensures
        valid_utf8(seq![a, b]),
{
    let s = seq![a, b];
    assert(pop_first_scalar(s) =~= seq![b]);
    assert((a & 0x7f) as u32 == a) by (bit_vector)
        requires
            a <= 0x7f,
    ;
    assert((b & 0x7f) as u32 == b) by (bit_vector)
        requires
            b <= 0x7f,
    ;
    assert(valid_first_scalar(s));
    let t = seq![b];
    assert(pop_first_scalar(t) =~= Seq::<u8>::empty());
    assert(valid_first_scalar(t));
    assert(valid_utf8(pop_first_scalar(t)));
    assert(valid_utf8(t));
}

proof fn lemma_hex_pairs_of_encoded(bytes: Seq<u8>)
    ensures
        hex_pairs(Seq::new(2 * bytes.len(), |i: int| hex_encoded(bytes)[i] as u8)) == Ok::<
            Seq<u8>,
            HexError,
        >(bytes),
    decreases bytes.len(),
{
    let text = Seq::new(2 * bytes.len(), |i: int| hex_encoded(bytes)[i] as u8);
    if bytes.len() > 0 {
        let rest = bytes.drop_first();
        lemma_hex_pairs_of_encoded(rest);
        let rest_text = Seq::new(2 * rest.len(), |i: int| hex_encoded(rest)[i] as u8);
        assert forall|i: int| 0 <= i < rest_text.len() implies rest_text[i] == text.skip(2)[i] by {
            assert((i + 2) / 2 == i / 2 + 1);
            assert((i + 2) % 2 == i % 2);
            assert(rest[i / 2] == bytes[i / 2 + 1]);
        }
        assert(text.skip(2) =~= rest_text);
        let high = bytes[0] / 16;
        let low = bytes[0] % 16;
        lemma_hex_char(high);
        lemma_hex_char(low);
        assert(text[0] == hex_char(high) as u8);
        assert(text[1] == hex_char(low) as u8);
        lemma_ascii_pair(text[0], text[1]);
        assert(seq![bytes[0]] + rest =~= bytes);
    } else {
        assert(bytes =~= Seq::<u8>::empty());
    }
}

/// Decoding undoes encoding: the hexadecimal text of any bytes reads as these bytes.
pub proof fn decode_undoes_encode(bytes: Seq<u8>)
    ensures
        hex_decoded(hex_encoded(bytes)) == Ok::<Seq<u8>, HexError>(bytes),
{
    lemma_hex_encoded_bytes(bytes);
    lemma_hex_pairs_of_encoded(bytes);
}

/// The sixteen digits.
pub open spec fn sixteen_digits() -> Seq<char> {
    seq!['0', '1', '2', '3', '4', '5', '6', '7', '8', '9', 'a', 'b', 'c', 'd', 'e', 'f']
}

/// Each byte is written on its own, as its two digits.
pub proof fn encoding_is_by_byte(a: Seq<u8>, b: Seq<u8>, byte: u8)
    ensures
        hex_encoded(a + b) == hex_encoded(a) + hex_encoded(b),
        hex_encoded(seq![byte]) == seq![
            sixteen_digits()[byte as int / 16],
            sixteen_digits()[byte as int % 16],
        ],
{
    assert forall|i: int| 0 <= i < hex_encoded(a + b).len() implies hex_encoded(a + b)[i] == (
    hex_encoded(a) + hex_encoded(b))[i] by {
        if i >= 2 * a.len() {
            assert((a + b)[i / 2] == b[i / 2 - a.len()]);
            assert((i - 2 * a.len()) / 2 == i / 2 - a.len());
        } else {
            assert((a + b)[i / 2] == a[i / 2]);
        }
    }
    assert(hex_encoded(a + b) =~= hex_encoded(a) + hex_encoded(b));
    assert(hex_char(byte / 16) == sixteen_digits()[byte as int / 16]);
    assert(hex_char(byte % 16) == sixteen_digits()[byte as int % 16]);
    assert(hex_encoded(seq![byte]) =~= seq![
        sixteen_digits()[byte as int / 16],
        sixteen_digits()[byte as int % 16],
    ]);
}

/// A number is written in hexadecimal digit by digit, without leading zeros.
pub proof fn hex_number_is_written_by_digit(n: nat, d: nat)
    requires
        d < 16,
    ensures
        hex_number(d) == seq![sixteen_digits()[d as int]],
        n > 0 ==> hex_number(16 * n + d) == hex_number(n).push(sixteen_digits()[d as int]),
{
    assert((16 * n + d) / 16 == n && (16 * n + d) % 16 == d);
    assert(hex_char(d as u8) == sixteen_digits()[d as int]);
}

/// Two digits, in either case, are read as one byte, and what follows them is read on its own.
pub proof fn digits_are_read_in_pairs(high: char, low: char, rest: Seq<char>)
    requires
        text::digit_value(high, 16) is Some,
        text::digit_value(low, 16) is Some,
    ensures
        hex_decoded(seq![high, low] + rest) == match hex_decoded(rest) {
            Ok(bytes) => Ok::<Seq<u8>, HexError>(
                seq![
                    (16 * text::digit_value(high, 16)->0 + text::digit_value(low, 16)->0) as u8,
                ] + bytes,
            ),
            Err(e) => Err(e),
        },
{
    let pair = seq![high, low];
    is_ascii_chars_encode_utf8(pair);
    text::lemma_encode_concat(pair, rest);
    let bytes = encode_utf8(pair + rest);
    assert(encode_utf8(pair) =~= seq![high as u8, low as u8]);
    assert(bytes.skip(2) =~= encode_utf8(rest));
    assert(bytes[0] == high as u8 && bytes[1] == low as u8);
    lemma_ascii_pair(high as u8, low as u8);
    assert(hex_digit(high as u8) == Some(text::digit_value(high, 16)->0 as u8));
    assert(hex_digit(low as u8) == Some(text::digit_value(low, 16)->0 as u8));
    assert(seq![bytes[0], bytes[1]] =~= seq![high as u8, low as u8]);
}

proof fn lemma_pairs_len(bytes: Seq<u8>)
    requires
        bytes.len() % 2 == 0,
        hex_pairs(bytes) is Ok,
    ensures
        bytes.len() == 2 * hex_pairs(bytes)->Ok_0.len(),
    decreases bytes.len(),
{
    if bytes.len() >= 2 {
        lemma_pairs_len(bytes.skip(2));
    }
}

/// Every two bytes of a text that is read give one byte, and a text of odd length is not read.
pub proof fn decoding_halves_the_length(s: Seq<char>)
    ensures
        hex_decoded(s) matches Ok(bytes) ==> encode_utf8(s).len() == 2 * bytes.len(),
        encode_utf8(s).len() % 2 == 1 ==> hex_decoded(s) == Err::<Seq<u8>, HexError>(
            HexError::OddLength,
        ),
{
    if hex_decoded(s) is Ok {
        lemma_pairs_len(encode_utf8(s));
    }
}

/// A text that begins with an ASCII character that is neither a digit nor a plus sign is not read.
pub proof fn other_characters_are_refused(first: char, second: char, rest: Seq<char>)
    requires
        first as u32 <= 0x7f,
        second as u32 <= 0x7f,
        (text::digit_value(first, 16) is None && first != '+') || text::digit_value(
            second,
            16,
        ) is None,
    ensures
        hex_decoded(seq![first, second] + rest) is Err,
{
    let pair = seq![first, second];
    is_ascii_chars_encode_utf8(pair);
    text::lemma_encode_concat(pair, rest);
    let bytes = encode_utf8(pair + rest);
    assert(encode_utf8(pair) =~= seq![first as u8, second as u8]);
    assert(bytes[0] == first as u8 && bytes[1] == second as u8);
}

} // verus!
