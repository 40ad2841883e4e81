//! Bytes and 32-bit words, the lowest byte first.
use vstd::prelude::*;

verus! {

/// One byte of a word.
pub open spec fn byte_of(word: u32, index: int) -> u8 {
    if index == 0 {
        (word % 256) as u8
    } else if index == 1 {
        (word / 0x100 % 256) as u8
    } else if index == 2 {
        (word / 0x1_0000 % 256) as u8
    } else {
        (word / 0x100_0000) as u8
    }
}

pub fn byte(word: u32, index: usize) -> (r: u8)
    requires
        index < 4,
    ensures
        r == byte_of(word, index as int),
{
    if index == 0 {
        (word % 256) as u8
    } else if index == 1 {
        (word / 0x100 % 256) as u8
    } else if index == 2 {
        (word / 0x1_0000 % 256) as u8
    } else {
        (word / 0x100_0000) as u8
    }
}

/// The byte at an index, and zero beyond the end.
pub open spec fn padded(bytes: Seq<u8>, index: int) -> int {
    if index < bytes.len() {
        bytes[index] as int
    } else {
        0
    }
}

/// Four bytes as one word, filled up with zeros.
pub open spec fn word_of(bytes: Seq<u8>, index: int) -> u32 {
    (padded(bytes, 4 * index) + 0x100 * padded(bytes, 4 * index + 1) + 0x1_0000 * padded(
        bytes,
        4 * index + 2,
    ) + 0x100_0000 * padded(bytes, 4 * index + 3)) as u32
}

fn fetch(bytes: &[u8], index: usize) -> (r: u32)
    ensures
        r == padded(bytes@, index as int),
        r < 256,
{
    if index < bytes.len() {
        bytes[index] as u32
    } else {
        0
    }
}

pub fn word(bytes: &[u8], index: usize) -> (r: u32)
    requires
        4 * index + 3 <= usize::MAX,
    ensures
        r == word_of(bytes@, index as int),
{
    fetch(bytes, 4 * index) + 0x100 * fetch(bytes, 4 * index + 1) + 0x1_0000 * fetch(
        bytes,
        4 * index + 2,
    ) + 0x100_0000 * fetch(bytes, 4 * index + 3)
}

/// Words that some bytes take.
pub open spec fn words(length: nat) -> int {
    (length as int + 3) / 4
}

/// Puts a word into the next four bytes, as far as there are any.
pub fn unpack(data: &mut [u8], first: usize, value: u32)
    requires
        first <= 0x1000_0000,
    ensures
        final(data)@.len() == old(data)@.len(),
        forall|j: int|
            0 <= j < old(data)@.len() ==> #[trigger] final(data)@[j] == if first <= j < first + 4 {
                byte_of(value, j - first)
            } else {
                old(data)@[j]
            },
{
    let mut k: usize = 0;
    while k < 4 && first + k < data.len()
        invariant
            first <= 0x1000_0000,
            k <= 4,
            data@.len() == old(data)@.len(),
            forall|j: int|
                0 <= j < old(data)@.len() ==> #[trigger] data@[j] == if first <= j < first + k {
                    byte_of(value, j - first)
                } else {
                    old(data)@[j]
                },
        decreases 4 - k,
    {
        data[first + k] = byte(value, k);
        k = k + 1;
    }
}

/// The bytes of a word are its value, the lowest first.
pub proof fn bytes_make_their_word(word: u32)
    ensures
        word == byte_of(word, 0) + 0x100 * byte_of(word, 1) + 0x1_0000 * byte_of(word, 2)
            + 0x100_0000 * byte_of(word, 3),
{
}

/// Every byte stands in its word, the lowest first, and what is beyond the end is zero.
pub proof fn words_hold_their_bytes(bytes: Seq<u8>, i: int)
    requires
        0 <= i,
    ensures
        i < bytes.len() ==> byte_of(word_of(bytes, i / 4), i % 4) == bytes[i],
        i >= bytes.len() ==> byte_of(word_of(bytes, i / 4), i % 4) == 0,
        i < bytes.len() ==> i / 4 < words(bytes.len()),
        4 * words(bytes.len()) < bytes.len() + 4,
{
    let k = i / 4;
    let a = padded(bytes, 4 * k);
    let b = padded(bytes, 4 * k + 1);
    let c = padded(bytes, 4 * k + 2);
    let d = padded(bytes, 4 * k + 3);
    let w = word_of(bytes, k);
    lemma_parts(a, b, c, d);
    assert(w == a + 0x100 * b + 0x1_0000 * c + 0x100_0000 * d);
    assert(i == 4 * k + i % 4);
    if i % 4 == 0 {
        assert(byte_of(w, 0) == a);
    } else if i % 4 == 1 {
        assert(byte_of(w, 1) == b);
    } else if i % 4 == 2 {
        assert(byte_of(w, 2) == c);
    } else {
        assert(byte_of(w, 3) == d);
    }
}

proof fn lemma_parts(a: int, b: int, c: int, d: int)
    requires
        0 <= a < 256,
        0 <= b < 256,
        0 <= c < 256,
        0 <= d < 256,
    ensures
        ({
            let w = a + 0x100 * b + 0x1_0000 * c + 0x100_0000 * d;
            &&& 0 <= w <= u32::MAX
            &&& w % 256 == a
            &&& w / 0x100 % 256 == b
            &&& w / 0x1_0000 % 256 == c
            &&& w / 0x100_0000 == d
        }),
{
    let w = a + 0x100 * b + 0x1_0000 * c + 0x100_0000 * d;
    assert(w / 0x100 == b + 0x100 * c + 0x1_0000 * d);
    assert(w / 0x1_0000 == c + 0x100 * d);
}

} // verus!
