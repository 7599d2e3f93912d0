//! The hash behind a fingerprint: 64-bit FNV-1a, written as sixteen digits.

use crate::hex::{hex_digit, hex_digit_spec};
use vstd::prelude::*;

verus! {

/// The value that the hash starts from.
pub const FNV_OFFSET: u64 = 0xcbf29ce484222325;

/// The multiplier of the hash.
pub const FNV_PRIME: u64 = 0x100000001b3;

/// The hash after one more byte.
pub open spec fn fnv1a_step(state: u64, byte: u8) -> u64 {
    (state ^ (byte as u64)).wrapping_mul(FNV_PRIME)
}

/// The hash of `bytes`, started from `state`.
pub open spec fn fnv1a_from(state: u64, bytes: Seq<u8>) -> u64
    decreases bytes.len(),
{
    if bytes.len() == 0 {
        state
    } else {
        fnv1a_step(fnv1a_from(state, bytes.drop_last()), bytes.last())
    }
}

/// The hash of `bytes`.
pub open spec fn fnv1a_spec(bytes: Seq<u8>) -> u64 {
    fnv1a_from(FNV_OFFSET, bytes)
}

/// The four bits of `value` that stand at place `place`, counted from the top.
pub open spec fn nibble_spec(value: u64, place: int) -> u8 {
    ((value >> ((60 - 4 * place) as u64)) & 0xf) as u8
}

/// A 64-bit value as sixteen lowercase hexadecimal digits, the top first.
pub open spec fn digits_spec(value: u64) -> Seq<u8> {
    Seq::new(16, |place: int| hex_digit_spec(nibble_spec(value, place)))
}

/// The digits are sixteen, each a lowercase hexadecimal digit.
pub proof fn lemma_digits_format(value: u64)
    ensures
        digits_spec(value).len() == 16,
        crate::hex::is_hex(digits_spec(value)),
        forall|i: int| 0 <= i < 16 ==> #[trigger] digits_spec(value)[i] != 47,
{
    assert forall|i: int| 0 <= i < 16 implies crate::hex::hex_value_spec(
        #[trigger] digits_spec(value)[i],
    ) is Some && digits_spec(value)[i] != 47 by {
        let shift = (60 - 4 * i) as u64;
        assert(((value >> shift) & 0xf) < 16) by (bit_vector);
        crate::hex::lemma_digit_round_trip(nibble_spec(value, i));
    }
}

/// The hash of `bytes`.
pub fn fnv1a(bytes: &[u8]) -> (hash: u64)
    ensures
        hash == fnv1a_spec(bytes@),
{
    let mut state: u64 = FNV_OFFSET;
    let mut i: usize = 0;
    while i < bytes.len()
        invariant
            i <= bytes.len(),
            state == fnv1a_from(FNV_OFFSET, bytes@.subrange(0, i as int)),
        decreases bytes.len() - i,
    {
        assert(bytes@.subrange(0, i + 1).drop_last() =~= bytes@.subrange(0, i as int));
        state = (state ^ (bytes[i] as u64)).wrapping_mul(FNV_PRIME);
        i += 1;
    }
    assert(bytes@.subrange(0, i as int) =~= bytes@);
    state
}

/// A 64-bit value as sixteen lowercase hexadecimal digits, the top first.
pub fn digits(value: u64) -> (text: Vec<u8>)
    ensures
        text@ == digits_spec(value),
{
    let mut text: Vec<u8> = Vec::new();
    let mut place: u64 = 0;
    while place < 16
        invariant
            place <= 16,
            text@.len() == place,
            forall|j: int| 0 <= j < place ==> text@[j] == hex_digit_spec(nibble_spec(value, j)),
        decreases 16 - place,
    {
        let shift: u64 = 60 - 4 * place;
        let nibble: u64 = (value >> shift) & 0xf;
        assert(nibble < 16) by (bit_vector)
            requires
                nibble == (value >> shift) & 0xf,
        ;
        text.push(hex_digit(nibble as u8));
        place += 1;
    }
    assert(text@ =~= digits_spec(value));
    text
}

} // verus!
