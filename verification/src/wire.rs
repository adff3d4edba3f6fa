//! The building blocks of frames: 16-bit numbers, lists of them, and bits
//! packed into bytes.

use vstd::prelude::*;

verus! {

/// The big-endian 16-bit number that two bytes hold.
pub open spec fn be16(high: u8, low: u8) -> u16 {
    (high * 256 + low) as u16
}

/// The two bytes of a number, the more significant one first.
pub open spec fn be_bytes(value: u16) -> Seq<u8> {
    seq![(value / 256) as u8, (value % 256) as u8]
}

/// The big-endian number at `offset`.
pub open spec fn word_at(bytes: Seq<u8>, offset: int) -> u16 {
    be16(bytes[offset], bytes[offset + 1])
}

/// The bytes of a list of numbers.
pub open spec fn words_bytes(words: Seq<u16>) -> Seq<u8> {
    Seq::new(
        2 * words.len(),
        |i: int|
            if i % 2 == 0 {
                (words[i / 2] / 256) as u8
            } else {
                (words[i / 2] % 256) as u8
            },
    )
}

/// The numbers that `bytes` hold, two bytes each.
pub open spec fn bytes_words(bytes: Seq<u8>) -> Seq<u16> {
    Seq::new(bytes.len() / 2, |i: int| word_at(bytes, 2 * i))
}

/// How many bytes `count` bits fill.
pub open spec fn octets(count: nat) -> nat {
    (count + 7) / 8
}

/// The value of bit `j` in a byte.
pub open spec fn weight(j: int) -> int {
    if j == 0 {
        1
    } else if j == 1 {
        2
    } else if j == 2 {
        4
    } else if j == 3 {
        8
    } else if j == 4 {
        16
    } else if j == 5 {
        32
    } else if j == 6 {
        64
    } else {
        128
    }
}

/// Whether bit `j` of `byte` is set.
pub open spec fn bit_of(byte: u8, j: int) -> bool {
    (byte as int / weight(j)) % 2 == 1
}

/// Bit `i` of `bits` as a number; 0 behind the last one.
pub open spec fn bit_value(bits: Seq<bool>, i: int) -> int {
    if 0 <= i < bits.len() && bits[i] {
        1
    } else {
        0
    }
}

/// The byte that holds bits `8 * k` to `8 * k + 7`, the first one lowest.
pub open spec fn octet(bits: Seq<bool>, k: int) -> u8 {
    (bit_value(bits, 8 * k) + 2 * bit_value(bits, 8 * k + 1) + 4 * bit_value(bits, 8 * k + 2) + 8
        * bit_value(bits, 8 * k + 3) + 16 * bit_value(bits, 8 * k + 4) + 32 * bit_value(
        bits,
        8 * k + 5,
    ) + 64 * bit_value(bits, 8 * k + 6) + 128 * bit_value(bits, 8 * k + 7)) as u8
}

/// The bytes that hold `bits`, eight to a byte, the last one filled with
/// zeros.
pub open spec fn packed(bits: Seq<bool>) -> Seq<u8> {
    Seq::new(octets(bits.len()), |k: int| octet(bits, k))
}

/// All the bits of `bytes`.
pub open spec fn unpacked(bytes: Seq<u8>) -> Seq<bool> {
    Seq::new(8 * bytes.len(), |i: int| bit_of(bytes[i / 8], i % 8))
}

/// Reads the big-endian number at `offset`.
pub fn read_u16_be(bytes: &[u8], offset: usize) -> (value: u16)
    requires
        offset + 1 < bytes@.len(),
    ensures
        value == word_at(bytes@, offset as int),
{
    bytes[offset] as u16 * 256 + bytes[offset + 1] as u16
}

/// Appends the two bytes of `value`.
pub fn push_u16_be(buffer: &mut Vec<u8>, value: u16)
    ensures
        final(buffer)@ == old(buffer)@ + be_bytes(value),
{
    buffer.push((value / 256) as u8);
    buffer.push((value % 256) as u8);
    assert(buffer@ =~= old(buffer)@ + be_bytes(value));
}

/// Appends `bytes`.
pub fn push_bytes(buffer: &mut Vec<u8>, bytes: &[u8])
    ensures
        final(buffer)@ == old(buffer)@ + bytes@,
{
    buffer.extend_from_slice(bytes);
    assert(buffer@ =~= old(buffer)@ + bytes@);
}

/// Appends the bytes of `words`.
pub fn push_words(buffer: &mut Vec<u8>, words: &[u16])
    ensures
        final(buffer)@ == old(buffer)@ + words_bytes(words@),
{
    let mut i: usize = 0;
    assert(buffer@ =~= buffer@ + words_bytes(words@.take(0)));
    while i < words.len()
        invariant
            i <= words@.len(),
            buffer@ == old(buffer)@ + words_bytes(words@.take(i as int)),
        decreases words@.len() - i,
    {
        push_u16_be(buffer, words[i]);
        assert(words_bytes(words@.take(i + 1)) =~= words_bytes(words@.take(i as int)) + be_bytes(
            words@[i as int],
        ));
        assert(buffer@ =~= old(buffer)@ + words_bytes(words@.take(i + 1)));
        i = i + 1;
    }
    assert(words@.take(words@.len() as int) =~= words@);
}

/// The numbers that `bytes` hold, two bytes each.
pub fn read_words(bytes: &[u8]) -> (words: Vec<u16>)
    ensures
        words@ == bytes_words(bytes@),
{
    let mut words: Vec<u16> = Vec::new();
    let mut i: usize = 0;
    while bytes.len() - i >= 2
        invariant
            i <= bytes@.len(),
            i == 2 * words@.len(),
            forall|k: int| 0 <= k < words@.len() ==> words@[k] == word_at(bytes@, 2 * k),
        decreases bytes@.len() - i,
    {
        words.push(read_u16_be(bytes, i));
        i = i + 2;
    }
    assert(words@ =~= bytes_words(bytes@));
    words
}

/// Bit `i` of `bits` as a number; 0 behind the last one.
fn bit_number(bits: &[bool], start: usize, j: usize) -> (value: u8)
    requires
        start <= bits@.len(),
        j < 8,
    ensures
        value == bit_value(bits@, start + j),
{
    if j < bits.len() - start && bits[start + j] {
        1
    } else {
        0
    }
}

/// Appends `bits`, eight to a byte.
pub fn push_bits(buffer: &mut Vec<u8>, bits: &[bool])
    ensures
        final(buffer)@ == old(buffer)@ + packed(bits@),
{
    let mut start: usize = 0;
    let ghost mut k: int = 0;
    assert(buffer@ =~= buffer@ + packed(bits@).take(0));
    while start < bits.len()
        invariant
            0 <= k <= packed(bits@).len(),
            start == 8 * k || (start == bits@.len() && k == packed(bits@).len()),
            start <= bits@.len(),
            buffer@ == old(buffer)@ + packed(bits@).take(k),
        decreases bits@.len() - start,
    {
        let byte: u8 = bit_number(bits, start, 0) + 2 * bit_number(bits, start, 1) + 4 * bit_number(
            bits,
            start,
            2,
        ) + 8 * bit_number(bits, start, 3) + 16 * bit_number(bits, start, 4) + 32 * bit_number(
            bits,
            start,
            5,
        ) + 64 * bit_number(bits, start, 6) + 128 * bit_number(bits, start, 7);
        buffer.push(byte);
        proof {
            assert(byte == octet(bits@, k));
            assert(buffer@ =~= old(buffer)@ + packed(bits@).take(k + 1));
            k = k + 1;
        }
        if bits.len() - start <= 8 {
            start = bits.len();
        } else {
            start = start + 8;
        }
    }
    assert(packed(bits@).take(k) =~= packed(bits@));
}

/// Whether bit `j` of `byte` is set.
fn read_bit(byte: u8, j: usize) -> (set: bool)
    requires
        j < 8,
    ensures
        set == bit_of(byte, j as int),
{
    let divisor: u8 = if j == 0 {
        1
    } else if j == 1 {
        2
    } else if j == 2 {
        4
    } else if j == 3 {
        8
    } else if j == 4 {
        16
    } else if j == 5 {
        32
    } else if j == 6 {
        64
    } else {
        128
    };
    (byte / divisor) % 2 == 1
}

/// All the bits of `bytes`.
pub fn read_bits(bytes: &[u8]) -> (bits: Vec<bool>)
    ensures
        bits@ == unpacked(bytes@),
{
    let mut bits: Vec<bool> = Vec::new();
    let mut i: usize = 0;
    while i < bytes.len()
        invariant
            i <= bytes@.len(),
            bits@.len() == 8 * i,
            forall|k: int| 0 <= k < bits@.len() ==> bits@[k] == bit_of(bytes@[k / 8], k % 8),
        decreases bytes@.len() - i,
    {
        let mut j: usize = 0;
        while j < 8
            invariant
                j <= 8,
                i < bytes@.len(),
                bits@.len() == 8 * i + j,
                forall|k: int| 0 <= k < bits@.len() ==> bits@[k] == bit_of(bytes@[k / 8], k % 8),
            decreases 8 - j,
        {
            bits.push(read_bit(bytes[i], j));
            j = j + 1;
        }
        i = i + 1;
    }
    assert(bits@ =~= unpacked(bytes@));
    bits
}

/// A list of numbers is what its bytes hold.
pub proof fn law_words_round_trip(words: Seq<u16>)
    ensures
        bytes_words(words_bytes(words)) == words,
        words_bytes(words).len() == 2 * words.len(),
{
    let bytes = words_bytes(words);
    assert forall|i: int| 0 <= i < words.len() implies word_at(bytes, 2 * i) == words[i] by {
        assert((2 * i) % 2 == 0 && (2 * i) / 2 == i);
        assert((2 * i + 1) % 2 == 1 && (2 * i + 1) / 2 == i);
    }
    assert(bytes_words(bytes) =~= words);
}

/// An even number of bytes is what the numbers they hold are written as.
pub proof fn law_bytes_round_trip(bytes: Seq<u8>)
    requires
        bytes.len() % 2 == 0,
    ensures
        words_bytes(bytes_words(bytes)) == bytes,
{
    assert forall|i: int| 0 <= i < bytes.len() implies words_bytes(bytes_words(bytes))[i]
        == bytes[i] by {
        assert(0 <= i / 2 < bytes.len() / 2);
        assert(bytes_words(bytes)[i / 2] == word_at(bytes, 2 * (i / 2)));
    }
    assert(words_bytes(bytes_words(bytes)) =~= bytes);
}

/// The bits of a sum of bits times their weights are those bits.
proof fn lemma_sum_bits(b0: int, b1: int, b2: int, b3: int, b4: int, b5: int, b6: int, b7: int)
    requires
        0 <= b0 <= 1,
        0 <= b1 <= 1,
        0 <= b2 <= 1,
        0 <= b3 <= 1,
        0 <= b4 <= 1,
        0 <= b5 <= 1,
        0 <= b6 <= 1,
        0 <= b7 <= 1,
    ensures
        ({
            let sum = b0 + 2 * b1 + 4 * b2 + 8 * b3 + 16 * b4 + 32 * b5 + 64 * b6 + 128 * b7;
            &&& (sum / 1) % 2 == b0
            &&& (sum / 2) % 2 == b1
            &&& (sum / 4) % 2 == b2
            &&& (sum / 8) % 2 == b3
            &&& (sum / 16) % 2 == b4
            &&& (sum / 32) % 2 == b5
            &&& (sum / 64) % 2 == b6
            &&& (sum / 128) % 2 == b7
        }),
{
    let h7 = b7;
    let h6 = b6 + 2 * h7;
    let h5 = b5 + 2 * h6;
    let h4 = b4 + 2 * h5;
    let h3 = b3 + 2 * h4;
    let h2 = b2 + 2 * h3;
    let h1 = b1 + 2 * h2;
    let sum = b0 + 2 * h1;
    assert(sum / 2 == h1);
    assert(sum / 4 == h2) by {
        assert(sum == 4 * h2 + (b0 + 2 * b1));
    }
    assert(sum / 8 == h3) by {
        assert(sum == 8 * h3 + (b0 + 2 * b1 + 4 * b2));
    }
    assert(sum / 16 == h4) by {
        assert(sum == 16 * h4 + (b0 + 2 * b1 + 4 * b2 + 8 * b3));
    }
    assert(sum / 32 == h5) by {
        assert(sum == 32 * h5 + (b0 + 2 * b1 + 4 * b2 + 8 * b3 + 16 * b4));
    }
    assert(sum / 64 == h6) by {
        assert(sum == 64 * h6 + (b0 + 2 * b1 + 4 * b2 + 8 * b3 + 16 * b4 + 32 * b5));
    }
    assert(sum / 128 == h7) by {
        assert(sum == 128 * h7 + (b0 + 2 * b1 + 4 * b2 + 8 * b3 + 16 * b4 + 32 * b5 + 64 * b6));
    }
}

/// The bits that were packed come out again, followed by zeros.
pub proof fn law_bits_round_trip(bits: Seq<bool>)
    ensures
        unpacked(packed(bits)).len() >= bits.len(),
        unpacked(packed(bits)).take(bits.len() as int) == bits,
        forall|i: int|
            bits.len() <= i < unpacked(packed(bits)).len() ==> !(#[trigger] unpacked(
                packed(bits),
            )[i]),
{
    let all = unpacked(packed(bits));
    assert forall|i: int| 0 <= i < all.len() implies all[i] == (i < bits.len() && bits[i]) by {
        let k = i / 8;
        let j = i % 8;
        assert(i == 8 * k + j);
        lemma_sum_bits(
            bit_value(bits, 8 * k),
            bit_value(bits, 8 * k + 1),
            bit_value(bits, 8 * k + 2),
            bit_value(bits, 8 * k + 3),
            bit_value(bits, 8 * k + 4),
            bit_value(bits, 8 * k + 5),
            bit_value(bits, 8 * k + 6),
            bit_value(bits, 8 * k + 7),
        );
        assert(bit_value(bits, i) == 1 <==> (i < bits.len() && bits[i]));
        assert(all[i] == bit_of(octet(bits, k), j));
    }
    assert(all.take(bits.len() as int) =~= bits);
}

} // verus!
