//! Byte strings as bit strings, highest bit first.
use vstd::prelude::*;

verus! {

/// Bit number `k` of a byte string, from the highest bit of the first byte on.
pub open spec fn bit_at(bytes: Seq<u8>, k: int) -> u8 {
    (bytes[k / 8] >> ((7 - k % 8) as u8)) & 1
}

/// All bits of a byte string.
pub open spec fn bits_of(bytes: Seq<u8>) -> Seq<u8> {
    Seq::new(8 * bytes.len(), |k: int| bit_at(bytes, k))
}

/// The byte that up to eight bits stand for, the last bit lowest.
pub open spec fn folded(bits: Seq<u8>) -> u8
    decreases bits.len(),
{
    if bits.len() == 0 {
        0
    } else {
        (folded(bits.drop_last()) << 1) | bits.last()
    }
}

/// The bits of byte number `j` of a bit string; the last byte may have fewer than eight.
pub open spec fn byte_bits(bits: Seq<u8>, j: int) -> Seq<u8> {
    let end = if 8 * j + 8 < bits.len() {
        8 * j + 8
    } else {
        bits.len() as int
    };
    bits.subrange(8 * j, end)
}

/// A bit string as bytes.
pub open spec fn packed(bits: Seq<u8>) -> Seq<u8> {
    Seq::new((bits.len() + 7) / 8, |j: int| folded(byte_bits(bits, j)))
}

/// Eight bits of a byte fold to the byte.
proof fn lemma_fold_byte(b: u8, bits: Seq<u8>)
    requires
        bits.len() == 8,
        forall|k: int| 0 <= k < 8 ==> bits[k] == (b >> ((7 - k) as u8)) & 1,
    ensures
        folded(bits) == b,
{
    reveal_with_fuel(folded, 9);
    let b7 = bits.drop_last();
    let b6 = b7.drop_last();
    let b5 = b6.drop_last();
    let b4 = b5.drop_last();
    let b3 = b4.drop_last();
    let b2 = b3.drop_last();
    let b1 = b2.drop_last();
    assert(b1.last() == bits[0] && b2.last() == bits[1] && b3.last() == bits[2] && b4.last()
        == bits[3] && b5.last() == bits[4] && b6.last() == bits[5] && b7.last() == bits[6]);
    let f0 = folded(b1.drop_last());
    let f1 = folded(b1);
    let f2 = folded(b2);
    let f3 = folded(b3);
    let f4 = folded(b4);
    let f5 = folded(b5);
    let f6 = folded(b6);
    let f7 = folded(b7);
    let f8 = folded(bits);
    assert(f8 == b) by (bit_vector)
        requires
            f0 == 0,
            f1 == (f0 << 1) | ((b >> 7u8) & 1),
            f2 == (f1 << 1) | ((b >> 6u8) & 1),
            f3 == (f2 << 1) | ((b >> 5u8) & 1),
            f4 == (f3 << 1) | ((b >> 4u8) & 1),
            f5 == (f4 << 1) | ((b >> 3u8) & 1),
            f6 == (f5 << 1) | ((b >> 2u8) & 1),
            f7 == (f6 << 1) | ((b >> 1u8) & 1),
            f8 == (f7 << 1) | ((b >> 0u8) & 1),
    ;
}

/// A bit string that starts with the bits of some bytes packs to those bytes first.
pub proof fn law_packed_bits(bytes: Seq<u8>, bits: Seq<u8>)
    requires
        8 * bytes.len() <= bits.len(),
        bits.take(8 * bytes.len() as int) == bits_of(bytes),
    ensures
        packed(bits).take(bytes.len() as int) == bytes,
{
    assert forall|j: int| 0 <= j < bytes.len() implies packed(bits)[j] == bytes[j] by {
        let eight = byte_bits(bits, j);
        assert forall|k: int| 0 <= k < 8 implies eight[k] == (bytes[j] >> ((7 - k) as u8)) & 1 by {
            assert(eight[k] == bits.take(8 * bytes.len() as int)[8 * j + k]);
            assert((8 * j + k) / 8 == j && (8 * j + k) % 8 == k);
        }
        lemma_fold_byte(bytes[j], eight);
    }
    assert(packed(bits).take(bytes.len() as int) =~= bytes);
}

/// A bit of a byte is zero or one.
pub proof fn lemma_bit_is_binary(bytes: Seq<u8>, k: int)
    ensures
        bit_at(bytes, k) <= 1,
{
    let b = bytes[k / 8];
    let s = (7 - k % 8) as u8;
    assert((b >> s) & 1 <= 1) by (bit_vector);
}

/// The bits of a byte string.
pub fn unpack_bits(bytes: &[u8]) -> (bits: Vec<u8>)
    requires
        8 * bytes@.len() <= usize::MAX,
    ensures
        bits@ == bits_of(bytes@),
{
    let total: usize = 8 * bytes.len();
    let mut bits: Vec<u8> = Vec::with_capacity(total);
    let mut k: usize = 0;
    while k < total
        invariant
            k <= total == 8 * bytes@.len(),
            bits@.len() == k,
            forall|i: int| 0 <= i < k ==> bits@[i] == bit_at(bytes@, i),
        decreases total - k,
    {
        let shift: u8 = 7 - (k % 8) as u8;
        bits.push((bytes[k / 8] >> shift) & 1);
        k = k + 1;
    }
    assert(bits@ =~= bits_of(bytes@));
    bits
}

/// A bit string as bytes.
pub fn pack_bits(bits: &[u8]) -> (bytes: Vec<u8>)
    ensures
        bytes@ == packed(bits@),
{
    let total: usize = bits.len();
    let mut bytes: Vec<u8> = Vec::new();
    let mut start: usize = 0;
    while start < total
        invariant
            total == bits@.len(),
            bytes@.len() == (start + 7) / 8,
            start == 8 * bytes@.len() || start == total,
            start <= total,
            forall|j: int| 0 <= j < bytes@.len() ==> bytes@[j] == folded(byte_bits(bits@, j)),
        decreases total - start,
    {
        let end: usize = if total - start > 8 {
            start + 8
        } else {
            total
        };
        let ghost j = bytes@.len() as int;
        let ghost eight = byte_bits(bits@, j);
        let mut byte: u8 = 0;
        let mut i: usize = start;
        assert(eight.take(0) =~= Seq::<u8>::empty());
        while i < end
            invariant
                start <= i <= end <= total == bits@.len(),
                eight == bits@.subrange(start as int, end as int),
                byte == folded(eight.take(i - start)),
            decreases end - i,
        {
            assert(eight.take(i + 1 - start).drop_last() =~= eight.take(i - start));
            byte = (byte << 1) | bits[i];
            i = i + 1;
        }
        assert(eight.take(end - start) =~= eight);
        bytes.push(byte);
        start = end;
    }
    assert(bytes@ =~= packed(bits@));
    bytes
}

/// The eight bits of a byte, the highest first, are its binary digits.
pub proof fn law_bits_are_binary_digits(bytes: Seq<u8>, j: int)
    requires
        0 <= j < bytes.len(),
    ensures
        bits_of(bytes).len() == 8 * bytes.len(),
        forall|k: int| 0 <= k < 8 ==> #[trigger] bits_of(bytes)[8 * j + k] <= 1,
        bytes[j] == 128 * bits_of(bytes)[8 * j] + 64 * bits_of(bytes)[8 * j + 1] + 32 * bits_of(
            bytes,
        )[8 * j + 2] + 16 * bits_of(bytes)[8 * j + 3] + 8 * bits_of(bytes)[8 * j + 4] + 4
            * bits_of(bytes)[8 * j + 5] + 2 * bits_of(bytes)[8 * j + 6] + bits_of(bytes)[8 * j + 7],
{
    let b = bytes[j];
    assert forall|k: int| 0 <= k < 8 implies #[trigger] bits_of(bytes)[8 * j + k] <= 1
        && bits_of(bytes)[8 * j + k] == (b >> ((7 - k) as u8)) & 1 by {
        assert((8 * j + k) / 8 == j && (8 * j + k) % 8 == k);
        lemma_bit_is_binary(bytes, 8 * j + k);
    }
    assert(bits_of(bytes)[8 * j + 0] == (b >> 7u8) & 1);
    assert(b == 128 * ((b >> 7u8) & 1) + 64 * ((b >> 6u8) & 1) + 32 * ((b >> 5u8) & 1) + 16 * ((b
        >> 4u8) & 1) + 8 * ((b >> 3u8) & 1) + 4 * ((b >> 2u8) & 1) + 2 * ((b >> 1u8) & 1) + ((b
        >> 0u8) & 1)) by (bit_vector);
}

/// Folding starts from zero, and each further bit doubles what was there and is added to it.
pub proof fn law_folding(bits: Seq<u8>, bit: u8)
    requires
        bits.len() < 8,
        forall|k: int| 0 <= k < bits.len() ==> bits[k] <= 1,
        bit <= 1,
    ensures
        folded(Seq::empty()) == 0,
        folded(bits.push(bit)) == 2 * folded(bits) + bit,
{
    lemma_folded_bound(bits);
    assert(bits.push(bit).drop_last() =~= bits);
    let f = folded(bits);
    assert((f << 1) | bit == 2 * f + bit) by (bit_vector)
        requires
            f < 128,
            bit <= 1,
    ;
}

/// Up to seven bits fold to less than 128.
proof fn lemma_folded_bound(bits: Seq<u8>)
    requires
        bits.len() < 8,
        forall|k: int| 0 <= k < bits.len() ==> bits[k] <= 1,
    ensures
        bits.len() == 0 ==> folded(bits) < 1,
        bits.len() == 1 ==> folded(bits) < 2,
        bits.len() == 2 ==> folded(bits) < 4,
        bits.len() == 3 ==> folded(bits) < 8,
        bits.len() == 4 ==> folded(bits) < 16,
        bits.len() == 5 ==> folded(bits) < 32,
        bits.len() == 6 ==> folded(bits) < 64,
        folded(bits) < 128,
    decreases bits.len(),
{
    if bits.len() > 0 {
        lemma_folded_bound(bits.drop_last());
        let f = folded(bits.drop_last());
        let bit = bits.last();
        assert((f << 1) | bit == 2 * f + bit) by (bit_vector)
            requires
                f < 64,
                bit <= 1,
        ;
    }
}

/// Packing folds the bits eight by eight, and what is left over at the end by itself.
pub proof fn law_packing(bits: Seq<u8>, j: int)
    requires
        0 <= j,
        8 * j < bits.len(),
    ensures
        packed(bits).len() == (bits.len() + 7) / 8,
        8 * j + 8 <= bits.len() ==> packed(bits)[j] == folded(bits.subrange(8 * j, 8 * j + 8)),
        8 * j + 8 > bits.len() ==> packed(bits)[j] == folded(bits.skip(8 * j)),
{
    if 8 * j + 8 > bits.len() {
        assert(byte_bits(bits, j) =~= bits.skip(8 * j));
    }
}

} // verus!
