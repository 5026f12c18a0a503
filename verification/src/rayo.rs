//! The Rayo machine: a long chain of mixing steps that stretches the derived key.
use crate::bytes::{
    be_bytes, be_value, lemma_be_bytes_len, lemma_be_round_trip, lemma_be_value_bound,
    lemma_byte_ranges, u64_from_be, u64_to_be,
};
use crate::primitives::{hkdf_expand, hkdf_sha256};
use crate::secret::SecretKey;
use std::time::Instant;
use vstd::prelude::*;

verus! {

/// The fewest steps that calibration settles on.
pub const MIN_RAYO_STEPS: u64 = 10_000_000;

/// The most steps that calibration settles on.
pub const MAX_RAYO_STEPS: u64 = 500_000_000;

/// How many steps calibration times.
pub const TEST_ITERATIONS: u64 = 10_000_000;

/// The state that the timed run starts from.
pub const CALIBRATION_STATE: u64 = 0x51A5_7057_0123_4567;

/// The shortest time that calibration reckons with, in nanoseconds.
pub const SHORTEST_RUN: u128 = 1_000;

/// Steps times nanoseconds per second: what a run's nanoseconds divide to give steps per second.
pub const STEP_NANOS: u128 = 10_000_000_000_000_000;

/// The HKDF salt, `aleksgoogol-v3`.
pub const HKDF_SALT: [u8; 14] = [
    0x61, 0x6c, 0x65, 0x6b, 0x73, 0x67, 0x6f, 0x6f, 0x67, 0x6f, 0x6c, 0x2d, 0x76, 0x33,
];

/// The HKDF info string of the encryption key, `aes-key`.
pub const AES_INFO: [u8; 7] = [0x61, 0x65, 0x73, 0x2d, 0x6b, 0x65, 0x79];

/// The HKDF info string of the authentication key, `hmac-key`.
pub const HMAC_INFO: [u8; 8] = [0x68, 0x6d, 0x61, 0x63, 0x2d, 0x6b, 0x65, 0x79];

/// `std::time::Instant`, a point in time.
#[verifier::external_type_specification]
#[verifier::external_body]
pub struct ExInstant(Instant);

/// One mixing step: `i` is added, modulo 2^64, and the sum is mixed by three shifted exclusive
/// ors.
pub open spec fn rayo_step(state: u64, i: u64) -> u64 {
    let sum = state.wrapping_add(i);
    let first = sum ^ (sum << 13);
    let second = first ^ (first >> 7);
    second ^ (second << 17)
}

/// The state after `count` steps from `state`, step number `k` adding `k`.
pub open spec fn rayo_chain(state: u64, count: nat) -> u64
    decreases count,
{
    if count == 0 {
        state
    } else {
        rayo_step(rayo_chain(state, (count - 1) as nat), (count - 1) as u64)
    }
}

/// The second chain after `count` steps: each step adds what the first chain, from `a`, has just
/// become.
pub open spec fn rayo_follower(a: u64, b: u64, count: nat) -> u64
    decreases count,
{
    if count == 0 {
        b
    } else {
        rayo_step(rayo_follower(a, b, (count - 1) as nat), rayo_chain(a, count))
    }
}

/// The key material that the two chains stretch `seed` to: the seed and the ends of both chains,
/// which start from its first sixteen bytes.
pub open spec fn stretched(seed: Seq<u8>, steps: nat) -> Seq<u8> {
    let a = be_value(seed.subrange(0, 8)) as u64;
    let b = be_value(seed.subrange(8, 16)) as u64;
    seed + be_bytes(rayo_chain(a, steps) as nat, 8) + be_bytes(
        rayo_follower(a, b, steps) as nat,
        8,
    )
}

/// The encryption key and the authentication key that a seed is expanded to.
pub open spec fn expanded_keys(seed: Seq<u8>, steps: nat) -> (Seq<u8>, Seq<u8>) {
    (
        hkdf_sha256(HKDF_SALT@, stretched(seed, steps), AES_INFO@),
        hkdf_sha256(HKDF_SALT@, stretched(seed, steps), HMAC_INFO@),
    )
}

/// The number of steps for a timed run that took `nanos` nanoseconds: three quarters of the steps
/// per second, within the bounds.
pub open spec fn calibrated_steps(nanos: nat) -> nat {
    let shortest = SHORTEST_RUN as nat;
    let taken = if nanos < shortest {
        shortest
    } else {
        nanos
    };
    let target = STEP_NANOS as nat / taken * 3 / 4;
    if target < MIN_RAYO_STEPS {
        MIN_RAYO_STEPS as nat
    } else if target > MAX_RAYO_STEPS {
        MAX_RAYO_STEPS as nat
    } else {
        target
    }
}

/// Different states stay different through a mixing step: a step loses no information.
pub proof fn law_step_is_injective(x: u64, y: u64, i: u64)
    requires
        rayo_step(x, i) == rayo_step(y, i),
    ensures
        x == y,
{
    let sx = x.wrapping_add(i);
    let sy = y.wrapping_add(i);
    let ax = sx ^ (sx << 13);
    let ay = sy ^ (sy << 13);
    let bx = ax ^ (ax >> 7);
    let by = ay ^ (ay >> 7);
    assert(bx ^ (bx << 17) == by ^ (by << 17) ==> bx == by) by (bit_vector);
    assert(ax ^ (ax >> 7) == ay ^ (ay >> 7) ==> ax == ay) by (bit_vector);
    assert(sx ^ (sx << 13) == sy ^ (sy << 13) ==> sx == sy) by (bit_vector);
}

/// A slower run never asks for more steps, and every run's number lies between the bounds.
pub proof fn law_calibration(fast: nat, slow: nat)
    requires
        fast <= slow,
    ensures
        MIN_RAYO_STEPS <= calibrated_steps(slow) <= calibrated_steps(fast) <= MAX_RAYO_STEPS,
{
    let shortest = SHORTEST_RUN as nat;
    let short = (if fast < shortest {
        shortest
    } else {
        fast
    }) as int;
    let long = (if slow < shortest {
        shortest
    } else {
        slow
    }) as int;
    vstd::arithmetic::div_mod::lemma_div_is_ordered_by_denominator(STEP_NANOS as int, short, long);
}

/// One mixing step.
pub fn rayo_step_simulation(state: u64, i: u64) -> (next: u64)
    ensures
        next == rayo_step(state, i),
        ({
            let sum = ((state + i) % 0x1_0000_0000_0000_0000) as u64;
            let first = sum ^ (sum << 13);
            let second = first ^ (first >> 7);
            next == second ^ (second << 17)
        }),
{
    let mut mixed: u64 = state.wrapping_add(i);
    mixed = mixed ^ (mixed << 13);
    mixed = mixed ^ (mixed >> 7);
    mixed = mixed ^ (mixed << 17);
    mixed
}

/// Runs `count` mixing steps from `state`, step number `k` adding `k`.
pub fn run_rayo_chain(state: u64, count: u64) -> (end: u64)
    ensures
        end == rayo_chain(state, count as nat),
{
    let mut current: u64 = state;
    let mut i: u64 = 0;
    while i < count
        invariant
            i <= count,
            current == rayo_chain(state, i as nat),
        decreases count - i,
    {
        current = rayo_step_simulation(current, i);
        i = i + 1;
    }
    current
}

/// `Instant::now`: the present moment, of which nothing is known.
#[verifier::external_body]
fn present_moment() -> Instant {
    Instant::now()
}

/// `Instant::elapsed`, in nanoseconds: depends on the clock, so nothing is known of it.
#[verifier::external_body]
fn nanos_since(start: &Instant) -> u128 {
    start.elapsed().as_nanos()
}

/// `std::hint::black_box`: gives its argument back and keeps the work for it from being removed.
#[verifier::external_body]
fn keep_work(state: u64) -> (same: u64)
    ensures
        same == state,
{
    std::hint::black_box(state)
}

/// The number of steps for a timed run that took `nanos` nanoseconds.
pub fn steps_for_run(nanos: u128) -> (steps: u64)
    ensures
        steps == calibrated_steps(nanos as nat),
{
    let taken: u128 = if nanos < SHORTEST_RUN {
        SHORTEST_RUN
    } else {
        nanos
    };
    assert(STEP_NANOS as int / taken as int <= STEP_NANOS) by (nonlinear_arith)
        requires
            taken >= 1000,
    ;
    let per_second: u128 = STEP_NANOS / taken;
    let target: u128 = per_second * 3 / 4;
    if target < MIN_RAYO_STEPS as u128 {
        MIN_RAYO_STEPS
    } else if target > MAX_RAYO_STEPS as u128 {
        MAX_RAYO_STEPS
    } else {
        target as u64
    }
}

/// Times a run of the machine and picks the number of steps that takes about three quarters of a
/// second here.
///
/// The number depends on the clock: whatever the run took, it is that of `calibrated_steps`.
pub fn calibrate_rayo_steps() -> (steps: u64)
    ensures
        exists|nanos: nat| steps == #[trigger] calibrated_steps(nanos),
        MIN_RAYO_STEPS <= steps <= MAX_RAYO_STEPS,
{
    let start: Instant = present_moment();
    let end: u64 = run_rayo_chain(CALIBRATION_STATE, TEST_ITERATIONS);
    let _ = keep_work(end);
    let nanos: u128 = nanos_since(&start);
    steps_for_run(nanos)
}

/// Stretches `seed` by two chains of `steps` mixing steps.
pub fn stretch_key(seed: &[u8; 32], steps: u64) -> (material: Vec<u8>)
    ensures
        material@ == stretched(seed@, steps as nat),
{
    let first: u64 = u64_from_be(seed, 0);
    let second: u64 = u64_from_be(seed, 8);
    let mut a: u64 = first;
    let mut b: u64 = second;
    let mut i: u64 = 0;
    while i < steps
        invariant
            i <= steps,
            a == rayo_chain(first, i as nat),
            b == rayo_follower(first, second, i as nat),
        decreases steps - i,
    {
        a = rayo_step_simulation(a, i);
        b = rayo_step_simulation(b, a);
        i = i + 1;
    }
    let mut material: Vec<u8> = Vec::new();
    material.extend_from_slice(seed);
    material.extend_from_slice(&u64_to_be(a));
    material.extend_from_slice(&u64_to_be(b));
    assert(material@ =~= stretched(seed@, steps as nat));
    material
}

/// Stretches `argon2_output` by two chains of `steps` mixing steps and expands the result to the
/// encryption key and the authentication key.
pub fn rayo_expand_key(argon2_output: &[u8; 32], steps: u64) -> (keys: (SecretKey, SecretKey))
    ensures
        keys.0@ == expanded_keys(argon2_output@, steps as nat).0,
        keys.1@ == expanded_keys(argon2_output@, steps as nat).1,
{
    let ikm: Vec<u8> = stretch_key(argon2_output, steps);
    let aes: SecretKey = hkdf_expand(&HKDF_SALT, ikm.as_slice(), &AES_INFO);
    let hmac: SecretKey = hkdf_expand(&HKDF_SALT, ikm.as_slice(), &HMAC_INFO);
    (aes, hmac)
}

/// A mixing step: the sum modulo 2^64, combined with itself moved up by 13 bits, then down by 7, then
/// up by 17.
pub proof fn law_mixing_step(state: u64, i: u64)
    ensures
        ({
            let sum = ((state + i) % 0x1_0000_0000_0000_0000) as u64;
            let first = sum ^ (sum << 13);
            let second = first ^ (first >> 7);
            rayo_step(state, i) == second ^ (second << 17)
        }),
{
}

/// Both chains start where they are told to, and go on by one mixing step at a time: the first adds
/// the step's number, the second what the first has just become.
pub proof fn law_chains(a: u64, b: u64, count: nat)
    requires
        count <= u64::MAX,
    ensures
        rayo_chain(a, 0) == a,
        rayo_follower(a, b, 0) == b,
        rayo_chain(a, count + 1) == rayo_step(rayo_chain(a, count), count as u64),
        rayo_follower(a, b, count + 1) == rayo_step(
            rayo_follower(a, b, count),
            rayo_step(rayo_chain(a, count), count as u64),
        ),
{
}

/// Stretching keeps the seed and appends the ends of both chains, which start from its first two
/// numbers of eight bytes.
pub proof fn law_stretching(seed: Seq<u8>, steps: nat)
    requires
        seed.len() == 32,
    ensures
        stretched(seed, steps).len() == 48,
        stretched(seed, steps).take(32) == seed,
        ({
            let a = be_value(seed.subrange(0, 8));
            let b = be_value(seed.subrange(8, 16));
            &&& a <= u64::MAX
            &&& b <= u64::MAX
            &&& be_value(stretched(seed, steps).subrange(32, 40)) == rayo_chain(a as u64, steps)
            &&& be_value(stretched(seed, steps).subrange(40, 48)) == rayo_follower(
                a as u64,
                b as u64,
                steps,
            )
        }),
{
    let whole = stretched(seed, steps);
    let a = be_value(seed.subrange(0, 8)) as u64;
    let b = be_value(seed.subrange(8, 16)) as u64;
    let first = rayo_chain(a, steps) as nat;
    let second = rayo_follower(a, b, steps) as nat;
    lemma_byte_ranges();
    lemma_be_value_bound(seed.subrange(0, 8));
    lemma_be_value_bound(seed.subrange(8, 16));
    lemma_be_bytes_len(first, 8);
    lemma_be_bytes_len(second, 8);
    lemma_be_round_trip(first, 8);
    lemma_be_round_trip(second, 8);
    assert(whole.take(32) =~= seed);
    assert(whole.subrange(32, 40) =~= be_bytes(first, 8));
    assert(whole.subrange(40, 48) =~= be_bytes(second, 8));
}

/// Both keys come from one HKDF input and differ by their info strings, `aes-key` and `hmac-key`; the
/// HKDF salt is `aleksgoogol-v3`.
pub proof fn law_key_expansion(seed: Seq<u8>, steps: nat)
    ensures
        expanded_keys(seed, steps).0 == hkdf_sha256(
            seq![
                0x61u8, 0x6c, 0x65, 0x6b, 0x73, 0x67, 0x6f, 0x6f, 0x67, 0x6f, 0x6c, 0x2d, 0x76, 0x33,
            ],
            stretched(seed, steps),
            seq![0x61u8, 0x65, 0x73, 0x2d, 0x6b, 0x65, 0x79],
        ),
        expanded_keys(seed, steps).1 == hkdf_sha256(
            seq![
                0x61u8, 0x6c, 0x65, 0x6b, 0x73, 0x67, 0x6f, 0x6f, 0x67, 0x6f, 0x6c, 0x2d, 0x76, 0x33,
            ],
            stretched(seed, steps),
            seq![0x68u8, 0x6d, 0x61, 0x63, 0x2d, 0x6b, 0x65, 0x79],
        ),
{
    assert(HKDF_SALT@ =~= seq![
        0x61u8, 0x6c, 0x65, 0x6b, 0x73, 0x67, 0x6f, 0x6f, 0x67, 0x6f, 0x6c, 0x2d, 0x76, 0x33,
    ]);
    assert(AES_INFO@ =~= seq![0x61u8, 0x65, 0x73, 0x2d, 0x6b, 0x65, 0x79]);
    assert(HMAC_INFO@ =~= seq![0x68u8, 0x6d, 0x61, 0x63, 0x2d, 0x6b, 0x65, 0x79]);
}

/// Between the bounds, calibration takes three quarters of the steps per second, rounded down, of a
/// run of ten million steps that took at least a microsecond.
pub proof fn law_calibrated_rate(nanos: nat)
    ensures
        ({
            let taken = if nanos < 1_000 {
                1_000
            } else {
                nanos
            };
            let per_second = 10_000_000 * 1_000_000_000 / taken;
            let steps = calibrated_steps(nanos);
            if 3 * per_second < 40_000_000 {
                steps == 10_000_000
            } else if 3 * per_second >= 2_000_000_000 {
                steps == 500_000_000
            } else {
                4 * steps <= 3 * per_second < 4 * steps + 4
            }
        }),
{
}

} // verus!
