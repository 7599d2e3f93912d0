//! Bytes written as lowercase hexadecimal digits, and read back.

use vstd::prelude::*;

verus! {

/// The digit for a value below sixteen.
pub open spec fn hex_digit_spec(value: u8) -> u8 {
    if value < 10 {
        (48 + value) as u8
    } else {
        (87 + value) as u8
    }
}

/// The value of a lowercase hexadecimal digit, if the byte is one.
pub open spec fn hex_value_spec(digit: u8) -> Option<u8> {
    if 48 <= digit <= 57 {
        Some((digit - 48) as u8)
    } else if 97 <= digit <= 102 {
        Some((digit - 87) as u8)
    } else {
        None
    }
}

/// Each byte as two digits, the high half first.
pub open spec fn hex_encode_spec(bytes: Seq<u8>) -> Seq<u8> {
    Seq::new(
        2 * bytes.len(),
        |i: int|
            if i % 2 == 0 {
                hex_digit_spec(bytes[i / 2] / 16)
            } else {
                hex_digit_spec(bytes[i / 2] % 16)
            },
    )
}

/// Whether a text is an even number of lowercase hexadecimal digits.
pub open spec fn is_hex(text: Seq<u8>) -> bool {
    text.len() % 2 == 0 && forall|i: int| 0 <= i < text.len() ==> hex_value_spec(text[i]) is Some
}

/// The bytes that a text of digits stands for.
pub open spec fn hex_decode_spec(text: Seq<u8>) -> Seq<u8> {
    Seq::new(
        text.len() / 2,
        |i: int|
            (hex_value_spec(text[2 * i]).unwrap() * 16 + hex_value_spec(
                text[2 * i + 1],
            ).unwrap()) as u8,
    )
}

/// Reading a digit gives back the value it was written for.
pub proof fn lemma_digit_round_trip(value: u8)
    requires
        value < 16,
    ensures
        hex_value_spec(hex_digit_spec(value)) == Some(value),
{
}

/// What is written in digits can be read, and reads as what was written.
pub proof fn lemma_hex_round_trip(bytes: Seq<u8>)
    ensures
        is_hex(hex_encode_spec(bytes)),
        hex_decode_spec(hex_encode_spec(bytes)) == bytes,
{
    let text = hex_encode_spec(bytes);
    assert forall|i: int| 0 <= i < text.len() implies hex_value_spec(text[i]) is Some by {
        lemma_digit_round_trip(bytes[i / 2] / 16);
        lemma_digit_round_trip(bytes[i / 2] % 16);
    }
    assert forall|i: int| 0 <= i < bytes.len() implies hex_decode_spec(text)[i] == bytes[i] by {
        lemma_digit_round_trip(bytes[i] / 16);
        lemma_digit_round_trip(bytes[i] % 16);
        assert((2 * i) % 2 == 0);
        assert((2 * i) / 2 == i);
        assert((2 * i + 1) % 2 == 1);
        assert((2 * i + 1) / 2 == i);
    }
    assert(hex_decode_spec(text) =~= bytes);
}

/// Digits stand for one byte string only: what reads alike was written alike.
pub proof fn lemma_hex_injective(a: Seq<u8>, b: Seq<u8>)
    requires
        hex_encode_spec(a) == hex_encode_spec(b),
    ensures
        a == b,
{
    lemma_hex_round_trip(a);
    lemma_hex_round_trip(b);
}

/// The digit for a value below sixteen.
pub fn hex_digit(value: u8) -> (digit: u8)
    requires
        value < 16,
    ensures
        digit == hex_digit_spec(value),
{
    if value < 10 {
        48 + value
    } else {
        87 + value
    }
}

/// The value of a lowercase hexadecimal digit, if the byte is one.
pub fn hex_value(digit: u8) -> (value: Option<u8>)
    ensures
        value == hex_value_spec(digit),
{
    if 48 <= digit && digit <= 57 {
        Some(digit - 48)
    } else if 97 <= digit && digit <= 102 {
        Some(digit - 87)
    } else {
        None
    }
}

/// Writes bytes as digits.
pub fn hex_encode(bytes: &[u8]) -> (text: Vec<u8>)
    ensures
        text@ == hex_encode_spec(bytes@),
{
    let mut text: Vec<u8> = Vec::new();
    let mut i: usize = 0;
    while i < bytes.len()
        invariant
            i <= bytes.len(),
            text@.len() == 2 * i,
            forall|j: int| 0 <= j < text@.len() ==> text@[j] == hex_encode_spec(bytes@)[j],
        decreases bytes.len() - i,
    {
        let byte = bytes[i];
        text.push(hex_digit(byte / 16));
        text.push(hex_digit(byte % 16));
        assert((2 * i) % 2 == 0 && (2 * i) / 2 == i);
        assert((2 * i + 1) % 2 == 1 && (2 * i + 1) / 2 == i);
        i += 1;
    }
    assert(text@ =~= hex_encode_spec(bytes@));
    text
}

/// Reads digits back into bytes. A text that is not an even number of
/// lowercase hexadecimal digits gives nothing.
pub fn hex_decode(text: &[u8]) -> (bytes: Option<Vec<u8>>)
    ensures
        bytes is Some == is_hex(text@),
        bytes matches Some(b) ==> b@ == hex_decode_spec(text@),
{
    if text.len() % 2 != 0 {
        return None;
    }
    let mut bytes: Vec<u8> = Vec::new();
    let mut i: usize = 0;
    while i < text.len()
        invariant
            i <= text.len(),
            i % 2 == 0,
            text.len() % 2 == 0,
            bytes@.len() == i / 2,
            forall|j: int| 0 <= j < i ==> hex_value_spec(text@[j]) is Some,
            forall|j: int| 0 <= j < bytes@.len() ==> bytes@[j] == hex_decode_spec(text@)[j],
        decreases text.len() - i,
    {
        let high = hex_value(text[i]);
        let low = hex_value(text[i + 1]);
        match (high, low) {
            (Some(h), Some(l)) => {
                assert(2 * (i as int / 2) == i);
                bytes.push(h * 16 + l);
            },
            _ => {
                return None;
            },
        }
        i += 2;
    }
    assert(bytes@ =~= hex_decode_spec(text@));
    Some(bytes)
}

} // verus!
