//! Costs and padding sizes that the password and the salt decide.
use crate::bytes::{be_value, u64_from_be};
use crate::primitives::{sha256, sha256_of_pair};
use vstd::arithmetic::power::pow;
use vstd::prelude::*;

verus! {

/// The least number of Argon2 passes.
pub const MIN_TIME_COST: u32 = 16;

/// The greatest number of Argon2 passes.
pub const MAX_TIME_COST: u32 = 40;

/// The least Argon2 memory, in KiB.
pub const MIN_MEM_COST: u32 = 262_144;

/// The greatest Argon2 memory, in KiB.
pub const MAX_MEM_COST: u32 = 524_288;

/// The step in which Argon2 memory grows, in KiB.
pub const MEM_STEP: u32 = 16_384;

/// The largest padding size of all, in bytes.
pub const LARGEST_TIER: usize = 134_217_728;

/// The number that the costs are taken from: a small base raised to a small power, both read off
/// the seed.
pub open spec fn cost_factor(seed: nat) -> nat {
    pow((seed % 10 + 1) as int, seed / 256 % 5 + 1) as nat
}

/// The Argon2 passes and memory (in KiB) that a seed stands for.
pub open spec fn costs_of_seed(seed: nat) -> (nat, nat) {
    let factor = cost_factor(seed);
    (
        MIN_TIME_COST as nat + factor % 25,
        MIN_MEM_COST as nat + factor / 16 % 17 * MEM_STEP as nat,
    )
}

/// The Argon2 passes and memory for a password and a salt: the seed is the first eight bytes of
/// their digest.
pub open spec fn costs_of(password: Seq<u8>, salt: Seq<u8>) -> (nat, nat) {
    costs_of_seed(be_value(sha256(password + salt).take(8)))
}

/// The smallest padding size of a level, in bytes.
pub open spec fn first_tier(level: u8) -> nat {
    if level == 1 {
        65_536
    } else if level == 2 {
        1_048_576
    } else {
        16_384
    }
}

/// The padding size with number `index` of a level: each is twice the one before.
pub open spec fn tier_size(level: u8, index: nat) -> nat
    decreases index,
{
    if index == 0 {
        first_tier(level)
    } else {
        2 * tier_size(level, (index - 1) as nat)
    }
}

/// The largest padding size of a level, in bytes.
pub open spec fn largest_tier(level: u8) -> nat {
    tier_size(level, 7)
}

/// The least multiple of `base` that is not below `len`.
pub open spec fn round_up(len: nat, base: nat) -> nat {
    ((len + base - 1) as nat / base) * base
}

/// The padded length of `len` bytes at a level, for the first byte of the digest.
pub open spec fn padded_len(digest_byte: u8, level: u8, len: nat) -> nat {
    round_up(len, tier_size(level, (digest_byte % 8) as nat))
}

/// Rounding up gives a multiple of the base that is at least the length and less than one base
/// above it.
pub proof fn law_round_up(len: nat, base: nat)
    requires
        base > 0,
    ensures
        round_up(len, base) % base == 0,
        len <= round_up(len, base) < len + base,
{
    let n = (len + base - 1) as int;
    let b = base as int;
    assert(n == b * (n / b) + n % b && 0 <= n % b < b) by (nonlinear_arith)
        requires
            b > 0,
    ;
    assert((n / b) * b == b * (n / b)) by (nonlinear_arith);
    assert(n / b >= 0) by (nonlinear_arith)
        requires
            n >= 0,
            b > 0,
    ;
    assert(((n / b) * b) % b == 0) by (nonlinear_arith)
        requires
            b > 0,
    ;
}

/// Rounding up hides the length: all lengths between two neighbouring multiples of the base give
/// the same result.
pub proof fn law_round_up_hides_length(len: nat, base: nat, k: nat)
    requires
        base > 0,
        k * base < len <= (k + 1) * base,
    ensures
        round_up(len, base) == (k + 1) * base,
{
    let n = (len + base - 1) as int;
    let b = base as int;
    let q = k as int + 1;
    assert((k + 1) * base == k * base + base) by (nonlinear_arith);
    assert(n / b == q) by {
        vstd::arithmetic::div_mod::lemma_fundamental_div_mod_converse(n, b, q, n - q * b);
    }
}

/// The padding sizes of a level, one by one.
proof fn lemma_tier_sizes(level: u8)
    ensures
        tier_size(level, 0) == first_tier(level),
        tier_size(level, 1) == 2 * first_tier(level),
        tier_size(level, 2) == 4 * first_tier(level),
        tier_size(level, 3) == 8 * first_tier(level),
        tier_size(level, 4) == 16 * first_tier(level),
        tier_size(level, 5) == 32 * first_tier(level),
        tier_size(level, 6) == 64 * first_tier(level),
        tier_size(level, 7) == 128 * first_tier(level),
{
    reveal_with_fuel(tier_size, 8);
}

/// Every padding size is positive and none is above the level's largest; a padded length is a multiple of
/// its size, not below the length and less than one size above it.
pub proof fn law_padded_len(digest_byte: u8, level: u8, len: nat)
    ensures
        0 < tier_size(level, (digest_byte % 8) as nat) <= largest_tier(level) <= LARGEST_TIER,
        padded_len(digest_byte, level, len) % tier_size(level, (digest_byte % 8) as nat) == 0,
        len <= padded_len(digest_byte, level, len) < len + tier_size(
            level,
            (digest_byte % 8) as nat,
        ),
{
    lemma_tier_sizes(level);
    law_round_up(len, tier_size(level, (digest_byte % 8) as nat));
}

/// The smallest and the largest padding size of each level: 64 KiB and 8 MiB, 1 MiB and 128 MiB, and
/// 16 KiB and 2 MiB.
pub proof fn law_level_sizes()
    ensures
        tier_size(1, 0) == 64 * 1024,
        largest_tier(1) == 8 * 1024 * 1024,
        tier_size(2, 0) == 1024 * 1024,
        largest_tier(2) == 128 * 1024 * 1024,
        forall|level: u8|
            level != 1 && level != 2 ==> #[trigger] tier_size(level, 0) == 16 * 1024
                && largest_tier(level) == 2 * 1024 * 1024,
{
    lemma_tier_sizes(1);
    lemma_tier_sizes(2);
    assert forall|level: u8| level != 1 && level != 2 implies #[trigger] tier_size(level, 0) == 16
        * 1024 && largest_tier(level) == 2 * 1024 * 1024 by {
        lemma_tier_sizes(level);
    }
}

/// Powers of a base up to ten with an exponent up to five, and what each further factor adds.
proof fn lemma_small_power(base: nat, exponent: nat)
    requires
        1 <= base <= 10,
        exponent <= 5,
    ensures
        1 <= pow(base as int, exponent) <= 100_000,
        exponent < 5 ==> pow(base as int, exponent + 1) == base * pow(base as int, exponent),
        exponent < 5 ==> 1 <= base * pow(base as int, exponent) <= 100_000,
{
    reveal(pow);
    reveal_with_fuel(pow, 7);
    let b = base as int;
    assert(pow(b, 0) == 1 && pow(b, 1) == b);
    assert(1 <= b * b <= 100) by (nonlinear_arith)
        requires
            1 <= b <= 10,
    ;
    assert(1 <= b * (b * b) <= 1000) by (nonlinear_arith)
        requires
            1 <= b <= 10,
            1 <= b * b <= 100,
    ;
    assert(1 <= b * (b * (b * b)) <= 10_000) by (nonlinear_arith)
        requires
            1 <= b <= 10,
            1 <= b * (b * b) <= 1000,
    ;
    assert(1 <= b * (b * (b * (b * b))) <= 100_000) by (nonlinear_arith)
        requires
            1 <= b <= 10,
            1 <= b * (b * (b * b)) <= 10_000,
    ;
}

/// Whatever the seed, the passes lie between their bounds, and the memory does too, at a whole
/// number of steps above the least.
pub proof fn law_costs_in_range(seed: nat)
    ensures
        MIN_TIME_COST <= costs_of_seed(seed).0 <= MAX_TIME_COST,
        MIN_MEM_COST <= costs_of_seed(seed).1 <= MAX_MEM_COST,
        (costs_of_seed(seed).1 - MIN_MEM_COST) % (MEM_STEP as int) == 0,
{
    lemma_small_power(seed % 10 + 1, seed / 256 % 5 + 1);
}

/// The Argon2 passes and memory (in KiB) that a seed stands for.
pub fn costs_from_seed(seed: u64) -> (costs: (u32, u32))
    ensures
        costs.0 == costs_of_seed(seed as nat).0,
        costs.1 == costs_of_seed(seed as nat).1,
        ({
            let power = pow((seed % 10 + 1) as int, (seed / 256 % 5 + 1) as nat);
            costs.0 == 16 + power % 25 && costs.1 == 262_144 + 16_384 * ((power / 16) % 17)
        }),
{
    let m: u64 = seed % 10 + 1;
    assert(seed >> 8 == seed / 256) by (bit_vector);
    let n: u64 = (seed >> 8) % 5 + 1;
    let mut factor: u64 = 1;
    let mut i: u64 = 0;
    proof {
        reveal(pow);
    }
    while i < n
        invariant
            1 <= m <= 10,
            i <= n <= 5,
            factor == pow(m as int, i as nat),
        decreases n - i,
    {
        proof {
            lemma_small_power(m as nat, i as nat);
        }
        factor = m * factor;
        i = i + 1;
    }
    proof {
        lemma_small_power(m as nat, n as nat);
    }
    assert(factor >> 4 == factor / 16) by (bit_vector);
    let time_cost: u32 = MIN_TIME_COST + (factor as u32) % (MAX_TIME_COST - MIN_TIME_COST + 1);
    let mem_cost: u32 = MIN_MEM_COST + ((factor >> 4) as u32) % ((MAX_MEM_COST - MIN_MEM_COST)
        / MEM_STEP + 1) * MEM_STEP;
    (time_cost, mem_cost)
}

/// The Argon2 passes and memory (in KiB) for a password and a salt.
pub fn googol_parameters(password: &[u8], salt: &[u8]) -> (costs: (u32, u32))
    ensures
        costs.0 == costs_of(password@, salt@).0,
        costs.1 == costs_of(password@, salt@).1,
        MIN_TIME_COST <= costs.0 <= MAX_TIME_COST,
        MIN_MEM_COST <= costs.1 <= MAX_MEM_COST,
        ({
            let seed = be_value(sha256(password@ + salt@).take(8));
            let power = pow((seed % 10 + 1) as int, seed / 256 % 5 + 1);
            costs.0 == 16 + power % 25 && costs.1 == 262_144 + 16_384 * ((power / 16) % 17)
        }),
{
    let digest: [u8; 32] = sha256_of_pair(password, salt);
    let seed: u64 = u64_from_be(&digest, 0);
    proof {
        assert(digest@.subrange(0, 8) =~= digest@.take(8));
        law_costs_in_range(seed as nat);
        law_costs(seed as nat);
    }
    costs_from_seed(seed)
}

/// The padding size of a level for the first byte of a digest.
fn tier_for(digest_byte: u8, level: u8) -> (size: usize)
    ensures
        size == tier_size(level, (digest_byte % 8) as nat),
        0 < size <= LARGEST_TIER,
{
    let index: u8 = digest_byte % 8;
    let first: usize = match level {
        1 => 65_536,
        2 => 1_048_576,
        _ => 16_384,
    };
    let mut size: usize = first;
    let mut i: u8 = 0;
    proof {
        lemma_tier_sizes(level);
    }
    while i < index
        invariant
            i <= index < 8,
            size == tier_size(level, i as nat),
            0 < size <= LARGEST_TIER,
            tier_size(level, 0) == first_tier(level),
            tier_size(level, 1) == 2 * first_tier(level),
            tier_size(level, 2) == 4 * first_tier(level),
            tier_size(level, 3) == 8 * first_tier(level),
            tier_size(level, 4) == 16 * first_tier(level),
            tier_size(level, 5) == 32 * first_tier(level),
            tier_size(level, 6) == 64 * first_tier(level),
            tier_size(level, 7) == 128 * first_tier(level),
        decreases index - i,
    {
        size = 2 * size;
        i = i + 1;
    }
    size
}

/// The padded length of `original_len` bytes at a level, for the first byte of a digest.
pub fn padded_len_for(digest_byte: u8, level: u8, original_len: usize) -> (target: usize)
    requires
        original_len + tier_size(level, (digest_byte % 8) as nat) <= usize::MAX + 1,
    ensures
        target == padded_len(digest_byte, level, original_len as nat),
        original_len <= target < original_len + tier_size(level, (digest_byte % 8) as nat),
        target as nat % tier_size(level, (digest_byte % 8) as nat) == 0,
{
    let base: usize = tier_for(digest_byte, level);
    proof {
        law_padded_len(digest_byte, level, original_len as nat);
    }
    ((original_len + (base - 1)) / base) * base
}

/// The padded length of `original_len` bytes at a level, for a password and a salt.
pub fn googol_padding_tier(password: &[u8], salt: &[u8], level: u8, original_len: usize) -> (target:
    usize)
    requires
        original_len + largest_tier(level) <= usize::MAX + 1,
    ensures
        target == padded_len(sha256(password@ + salt@)[0], level, original_len as nat),
        original_len <= target < original_len + largest_tier(level),
        ({
            let size = tier_size(level, (sha256(password@ + salt@)[0] % 8) as nat);
            target as nat % size == 0 && original_len <= target < original_len + size
        }),
{
    proof {
        lemma_tier_sizes(level);
    }
    let digest: [u8; 32] = sha256_of_pair(password, salt);
    proof {
        law_padded_len(digest@[0], level, original_len as nat);
    }
    padded_len_for(digest[0], level, original_len)
}

/// Each padding size of a level is twice the one before.
pub proof fn law_sizes_double(level: u8, index: nat)
    ensures
        tier_size(level, index + 1) == 2 * tier_size(level, index),
{
}

/// The costs of a seed: a base from one to ten, read off the seed, is raised to a power from one to
/// five, read off the seed's next byte. The passes are 16 and the power's remainder by 25; the
/// memory is 256 MiB and, for the remainder of its sixteenth by 17, as many times 16 MiB.
pub proof fn law_costs(seed: nat)
    ensures
        ({
            let power = pow((seed % 10 + 1) as int, seed / 256 % 5 + 1);
            &&& power >= 1
            &&& costs_of_seed(seed).0 == 16 + power % 25
            &&& costs_of_seed(seed).1 == 262_144 + 16_384 * ((power / 16) % 17)
        }),
{
    lemma_small_power(seed % 10 + 1, seed / 256 % 5 + 1);
}

/// The seed of a password and a salt is the first eight bytes of their digest, the password first.
pub proof fn law_seed(password: Seq<u8>, salt: Seq<u8>)
    ensures
        costs_of(password, salt) == costs_of_seed(be_value(sha256(password + salt).take(8))),
{
}

} // verus!
