//! Words in the storage of a scope.
//!
//! The storage of a scope is a block of bytes. The scope stack keeps there, as
//! little-endian words of eight bytes, what it needs to tell later whether the
//! storage is that of the innermost scope.

use vstd::prelude::*;
use vstd::bytes::spec_u64_from_le_bytes;
use vstd::bytes::spec_u64_to_le_bytes;
use vstd::bytes::lemma_auto_spec_u64_to_from_le_bytes;
use vstd::bytes::u64_to_le_bytes;
use vstd::bytes::u64_from_le_bytes;

verus! {

/// The word that the bytes `8 * index .. 8 * index + 8` hold.
pub open spec fn word_at(bytes: Seq<u8>, index: int) -> u64 {
    spec_u64_from_le_bytes(bytes.subrange(8 * index, 8 * index + 8))
}

/// The bytes with the word at `index` replaced.
pub open spec fn with_word(bytes: Seq<u8>, index: int, word: u64) -> Seq<u8> {
    Seq::new(
        bytes.len(),
        |i: int|
            if 8 * index <= i < 8 * index + 8 {
                spec_u64_to_le_bytes(word)[i - 8 * index]
            } else {
                bytes[i]
            },
    )
}

/// Replacing a word changes that word and no other.
pub proof fn lemma_with_word(bytes: Seq<u8>, index: int, word: u64, other: int)
    requires
        0 <= index,
        8 * index + 8 <= bytes.len(),
        0 <= other,
        8 * other + 8 <= bytes.len(),
    ensures
        with_word(bytes, index, word).len() == bytes.len(),
        word_at(with_word(bytes, index, word), index) == word,
        other != index ==> word_at(with_word(bytes, index, word), other) == word_at(bytes, other),
{
    lemma_auto_spec_u64_to_from_le_bytes();
    let after = with_word(bytes, index, word);
    assert(after.subrange(8 * index, 8 * index + 8) =~= spec_u64_to_le_bytes(word));
    if other != index {
        assert(after.subrange(8 * other, 8 * other + 8) =~= bytes.subrange(
            8 * other,
            8 * other + 8,
        ));
    }
}

/// Every word of zeroed storage is zero.
pub proof fn lemma_zero_words(bytes: Seq<u8>, index: int)
    requires
        0 <= index,
        8 * index + 8 <= bytes.len(),
        forall|i: int| 0 <= i < bytes.len() ==> bytes[i] == 0u8,
    ensures
        word_at(bytes, index) == 0,
{
    lemma_auto_spec_u64_to_from_le_bytes();
    vstd::bytes::spec_u64_to_le_bytes_to_open(0u64);
    let zero = spec_u64_to_le_bytes(0u64);
    assert(0u64 & 0xff == 0 && (0u64 >> 8) & 0xff == 0 && (0u64 >> 16) & 0xff == 0 && (0u64 >> 24)
        & 0xff == 0 && (0u64 >> 32) & 0xff == 0 && (0u64 >> 40) & 0xff == 0 && (0u64 >> 48) & 0xff
        == 0 && (0u64 >> 56) & 0xff == 0) by (bit_vector);
    assert(bytes.subrange(8 * index, 8 * index + 8) =~= zero);
}

/// Reads the word at `index`.
pub fn load_word<const N: usize>(fields: &[u8; N], index: usize) -> (word: u64)
    requires
        8 * index + 8 <= N,
    ensures
        word == word_at(fields@, index as int),
{
    let start: usize = 8 * index;
    let mut bytes: Vec<u8> = Vec::new();
    let mut k: usize = 0;
    while k < 8
        invariant
            k <= 8,
            start == 8 * index,
            start + 8 <= N,
            bytes@ == fields@.subrange(start as int, start + k),
        decreases 8 - k,
    {
        bytes.push(fields[start + k]);
        k = k + 1;
    }
    u64_from_le_bytes(bytes.as_slice())
}

/// Writes the word at `index`.
pub fn store_word<const N: usize>(fields: &mut [u8; N], index: usize, word: u64)
    requires
        8 * index + 8 <= N,
    ensures
        final(fields)@ == with_word(old(fields)@, index as int, word),
{
    let start: usize = 8 * index;
    let bytes = u64_to_le_bytes(word);
    let mut k: usize = 0;
    while k < 8
        invariant
            k <= 8,
            start == 8 * index,
            start + 8 <= N,
            bytes@ == spec_u64_to_le_bytes(word),
            bytes@.len() == 8,
            fields@.len() == N,
            forall|i: int|
                0 <= i < N ==> fields@[i] == if start <= i < start + k {
                    bytes@[i - start]
                } else {
                    old(fields)@[i]
                },
        decreases 8 - k,
    {
        fields[start + k] = bytes[k];
        k = k + 1;
    }
    assert(fields@ =~= with_word(old(fields)@, index as int, word));
}

} // verus!
