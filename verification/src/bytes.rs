//! Big-endian encoding of unsigned integers.
use vstd::prelude::*;

verus! {

/// The number that a big-endian byte string stands for.
pub open spec fn be_value(bytes: Seq<u8>) -> nat
    decreases bytes.len(),
{
    if bytes.len() == 0 {
        0
    } else {
        be_value(bytes.drop_last()) * 256 + bytes.last() as nat
    }
}

/// The lowest `len` bytes of `value`, most significant first.
pub open spec fn be_bytes(value: nat, len: nat) -> Seq<u8>
    decreases len,
{
    if len == 0 {
        Seq::empty()
    } else {
        be_bytes(value / 256, (len - 1) as nat).push((value % 256) as u8)
    }
}

/// 256 to the power of `n`: how many values `n` bytes can hold.
pub open spec fn byte_range(n: nat) -> nat
    decreases n,
{
    if n == 0 {
        1
    } else {
        256 * byte_range((n - 1) as nat)
    }
}

/// A big-endian encoding has exactly the length asked for.
pub proof fn lemma_be_bytes_len(value: nat, len: nat)
    ensures
        be_bytes(value, len).len() == len,
    decreases len,
{
    if len > 0 {
        lemma_be_bytes_len(value / 256, (len - 1) as nat);
    }
}

/// Decoding gives back every value that fits the encoding's length.
pub proof fn lemma_be_round_trip(value: nat, len: nat)
    requires
        value < byte_range(len),
    ensures
        be_value(be_bytes(value, len)) == value,
    decreases len,
{
    if len > 0 {
        let rest = be_bytes(value / 256, (len - 1) as nat);
        lemma_be_round_trip(value / 256, (len - 1) as nat);
        assert(be_bytes(value, len).drop_last() =~= rest);
    }
}

/// A byte string stands for a number below 256 to the power of its length.
pub proof fn lemma_be_value_bound(bytes: Seq<u8>)
    ensures
        be_value(bytes) < byte_range(bytes.len()),
    decreases bytes.len(),
{
    if bytes.len() > 0 {
        lemma_be_value_bound(bytes.drop_last());
    }
}

/// How many values four and eight bytes can hold.
pub proof fn lemma_byte_ranges()
    ensures
        byte_range(4) == 0x1_0000_0000,
        byte_range(8) == 0x1_0000_0000_0000_0000,
{
    reveal_with_fuel(byte_range, 9);
}

/// Reads eight big-endian bytes, from `start` on.
pub fn u64_from_be(bytes: &[u8], start: usize) -> (value: u64)
    requires
        start + 8 <= bytes@.len(),
    ensures
        value == be_value(bytes@.subrange(start as int, start + 8)),
{
    let ghost field = bytes@.subrange(start as int, start + 8);
    let mut value: u64 = 0;
    let mut i: usize = 0;
    let len: usize = bytes.len();
    assert(field.take(0) =~= Seq::<u8>::empty());
    while i < 8
        invariant
            i <= 8,
            start + 8 <= len == bytes@.len(),
            field == bytes@.subrange(start as int, start + 8),
            value == be_value(field.take(i as int)),
        decreases 8 - i,
    {
        proof {
            reveal_with_fuel(byte_range, 9);
            lemma_be_value_bound(field.take(i as int));
            assert(field.take(i + 1).drop_last() =~= field.take(i as int));
            lemma_be_value_bound(field.take(i + 1));
        }
        value = value * 256 + bytes[start + i] as u64;
        i = i + 1;
    }
    assert(field.take(8) =~= field);
    value
}

/// Reads four big-endian bytes, from `start` on.
pub fn u32_from_be(bytes: &[u8], start: usize) -> (value: u32)
    requires
        start + 4 <= bytes@.len(),
    ensures
        value == be_value(bytes@.subrange(start as int, start + 4)),
{
    let ghost field = bytes@.subrange(start as int, start + 4);
    let mut value: u32 = 0;
    let mut i: usize = 0;
    let len: usize = bytes.len();
    assert(field.take(0) =~= Seq::<u8>::empty());
    while i < 4
        invariant
            i <= 4,
            start + 4 <= len == bytes@.len(),
            field == bytes@.subrange(start as int, start + 4),
            value == be_value(field.take(i as int)),
        decreases 4 - i,
    {
        proof {
            reveal_with_fuel(byte_range, 5);
            lemma_be_value_bound(field.take(i as int));
            assert(field.take(i + 1).drop_last() =~= field.take(i as int));
            lemma_be_value_bound(field.take(i + 1));
        }
        value = value * 256 + bytes[start + i] as u32;
        i = i + 1;
    }
    assert(field.take(4) =~= field);
    value
}

/// Writes `value` as eight big-endian bytes.
pub fn u64_to_be(value: u64) -> (bytes: [u8; 8])
    ensures
        bytes@ == be_bytes(value as nat, 8),
{
    let mut bytes: [u8; 8] = [0; 8];
    let mut left: u64 = value;
    let mut i: usize = 8;
    let ghost whole = be_bytes(value as nat, 8);
    proof {
        lemma_be_bytes_len(value as nat, 8);
        assert(whole.take(8) =~= whole);
    }
    while i > 0
        invariant
            i <= 8,
            whole.len() == 8,
            whole.take(i as int) == be_bytes(left as nat, i as nat),
            forall|k: int| i <= k < 8 ==> bytes@[k] == whole[k],
        decreases i,
    {
        let ghost before = whole.take(i as int);
        i = i - 1;
        let low: u64 = left % 256;
        bytes[i] = low as u8;
        left = left / 256;
        proof {
            assert(before.last() == whole[i as int]);
            assert(before.drop_last() =~= whole.take(i as int));
            let rest = be_bytes(left as nat, i as nat);
            assert(rest.push(low as u8).drop_last() =~= rest);
        }
    }
    assert(bytes@ =~= whole);
    bytes
}

/// Writes `value` as four big-endian bytes.
pub fn u32_to_be(value: u32) -> (bytes: [u8; 4])
    ensures
        bytes@ == be_bytes(value as nat, 4),
{
    let mut bytes: [u8; 4] = [0; 4];
    let mut left: u32 = value;
    let mut i: usize = 4;
    let ghost whole = be_bytes(value as nat, 4);
    proof {
        lemma_be_bytes_len(value as nat, 4);
        assert(whole.take(4) =~= whole);
    }
    while i > 0
        invariant
            i <= 4,
            whole.len() == 4,
            whole.take(i as int) == be_bytes(left as nat, i as nat),
            forall|k: int| i <= k < 4 ==> bytes@[k] == whole[k],
        decreases i,
    {
        let ghost before = whole.take(i as int);
        i = i - 1;
        let low: u32 = left % 256;
        bytes[i] = low as u8;
        left = left / 256;
        proof {
            assert(before.last() == whole[i as int]);
            assert(before.drop_last() =~= whole.take(i as int));
            let rest = be_bytes(left as nat, i as nat);
            assert(rest.push(low as u8).drop_last() =~= rest);
        }
    }
    assert(bytes@ =~= whole);
    bytes
}

/// The first byte of a number is its most significant one.
pub proof fn law_most_significant_first(bytes: Seq<u8>)
    requires
        bytes.len() > 0,
    ensures
        be_value(bytes) == bytes[0] * byte_range((bytes.len() - 1) as nat) + be_value(
            bytes.skip(1),
        ),
    decreases bytes.len(),
{
    let head = bytes.drop_last();
    if bytes.len() == 1 {
        assert(head =~= Seq::<u8>::empty());
        assert(bytes.skip(1) =~= Seq::<u8>::empty());
        assert(be_value(bytes.skip(1)) == 0);
        assert(be_value(head) == 0);
        let first = bytes[0] as nat;
        let range = byte_range(0);
        assert(first * range == first) by (nonlinear_arith)
            requires
                range == 1,
        ;
    } else {
        law_most_significant_first(head);
        let range = byte_range((head.len() - 1) as nat);
        assert(bytes.skip(1).drop_last() =~= head.skip(1));
        assert(bytes.skip(1).last() == bytes.last());
        assert(byte_range((bytes.len() - 1) as nat) == 256 * range);
        let first = bytes[0] as nat;
        assert(first * (256 * range) == 256 * (first * range)) by (nonlinear_arith);
    }
}

/// No bytes stand for zero, and each further byte multiplies what can be held by 256.
pub proof fn law_byte_ranges(n: nat)
    ensures
        be_value(Seq::empty()) == 0,
        byte_range(0) == 1,
        byte_range(n + 1) == 256 * byte_range(n),
{
}

/// Encoding keeps the lowest bytes of a number: it has the length asked for, and decodes to the
/// number's remainder.
pub proof fn law_encoding_keeps_lowest_bytes(value: nat, len: nat)
    ensures
        be_bytes(value, len).len() == len,
        be_value(be_bytes(value, len)) == value % byte_range(len),
    decreases len,
{
    lemma_be_bytes_len(value, len);
    if len > 0 {
        let shorter = (len - 1) as nat;
        let high = value / 256;
        let range = byte_range(shorter);
        law_encoding_keeps_lowest_bytes(high, shorter);
        lemma_byte_range_positive(shorter);
        assert(be_bytes(value, len).drop_last() =~= be_bytes(high, shorter));
        vstd::arithmetic::div_mod::lemma_mod_breakdown(value as int, 256, range as int);
        assert(256 * range == range * 256) by (nonlinear_arith);
    }
}

/// There is at least one value to hold.
proof fn lemma_byte_range_positive(n: nat)
    ensures
        byte_range(n) > 0,
    decreases n,
{
    if n > 0 {
        lemma_byte_range_positive((n - 1) as nat);
    }
}

} // verus!
