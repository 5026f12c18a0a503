//! Nonce whitening through a bounded run of the Ackermann function.
use vstd::arithmetic::power2::pow2;
use vstd::prelude::*;

verus! {

/// How many evaluation steps are made before the run is cut short.
pub const MAX_STEPS: u32 = 50_000;

/// Length of a nonce in bytes.
pub const NONCE_LEN: usize = 12;

/// The Ackermann function.
pub open spec fn ackermann(m: nat, n: nat) -> nat
    decreases m, n,
{
    if m == 0 {
        n + 1
    } else if n == 0 {
        ackermann((m - 1) as nat, 1)
    } else {
        ackermann((m - 1) as nat, ackermann(m, (n - 1) as nat))
    }
}

/// How many steps the stack machine takes to evaluate `ackermann(m, n)`.
pub open spec fn ackermann_steps(m: nat, n: nat) -> nat
    decreases m, n,
{
    if m == 0 {
        1
    } else if n == 0 {
        1 + ackermann_steps((m - 1) as nat, 1)
    } else {
        1 + ackermann_steps(m, (n - 1) as nat) + ackermann_steps(
            (m - 1) as nat,
            ackermann(m, (n - 1) as nat),
        )
    }
}

/// What the stack machine returns from the pending arguments `stack` (the next one last), the
/// running value `n` and the number of steps made so far.
///
/// Each step takes one pending argument. With no argument left the running value is the result.
/// A step past the budget ends the run with the exclusive or of the running value, the argument
/// just taken and the step's number.
pub open spec fn machine(stack: Seq<nat>, n: nat, steps: nat) -> u32
    decreases MAX_STEPS + 1 - steps,
{
    if stack.len() == 0 {
        n as u32
    } else {
        let m = stack.last();
        let rest = stack.drop_last();
        let step = steps + 1;
        if step > MAX_STEPS {
            (n as u32) ^ (m as u32) ^ (step as u32)
        } else if m == 0 {
            machine(rest, n + 1, step)
        } else if n == 0 {
            machine(rest.push((m - 1) as nat), 1, step)
        } else {
            machine(rest.push((m - 1) as nat).push(m), (n - 1) as nat, step)
        }
    }
}

/// The bounded Ackermann value of the two lowest bits of `m` and the four lowest of `n`.
pub open spec fn bounded_ackermann(m: u32, n: u32) -> u32 {
    machine(seq![(m % 4) as nat], (n % 16) as nat, 0)
}

/// Within the budget the machine replaces an argument by its Ackermann value.
proof fn lemma_machine_evaluates(rest: Seq<nat>, m: nat, n: nat, steps: nat)
    requires
        steps + ackermann_steps(m, n) <= MAX_STEPS,
    ensures
        machine(rest.push(m), n, steps) == machine(
            rest,
            ackermann(m, n),
            steps + ackermann_steps(m, n),
        ),
    decreases m, n,
{
    let stack = rest.push(m);
    assert(stack.drop_last() =~= rest);
    if m > 0 {
        let lower = rest.push((m - 1) as nat);
        if n == 0 {
            lemma_machine_evaluates(rest, (m - 1) as nat, 1, steps + 1);
        } else {
            let inner = ackermann_steps(m, (n - 1) as nat);
            lemma_machine_evaluates(lower, m, (n - 1) as nat, steps + 1);
            lemma_machine_evaluates(
                rest,
                (m - 1) as nat,
                ackermann(m, (n - 1) as nat),
                steps + 1 + inner,
            );
        }
    }
}

/// Each step raises the running value by at most one.
proof fn lemma_value_bound(m: nat, n: nat)
    ensures
        ackermann(m, n) <= n + ackermann_steps(m, n),
    decreases m, n,
{
    if m > 0 {
        if n == 0 {
            lemma_value_bound((m - 1) as nat, 1);
        } else {
            lemma_value_bound(m, (n - 1) as nat);
            lemma_value_bound((m - 1) as nat, ackermann(m, (n - 1) as nat));
        }
    }
}

/// Closed forms of the Ackermann function and of its step count for the first three rows.
proof fn lemma_small_rows(n: nat)
    ensures
        ackermann(1, n) == n + 2,
        ackermann_steps(1, n) == 2 * n + 2,
        ackermann(2, n) == 2 * n + 3,
        ackermann_steps(2, n) == 2 * n * n + 7 * n + 5,
    decreases n,
{
    reveal_with_fuel(ackermann, 3);
    reveal_with_fuel(ackermann_steps, 3);
    if n == 0 {
        lemma_first_row(1);
        assert(2 * n * n == 0) by (nonlinear_arith)
            requires
                n == 0,
        ;
    } else {
        let k = (n - 1) as nat;
        lemma_small_rows(k);
        lemma_first_row(n);
        lemma_first_row(ackermann(2, k));
        assert(2 * n * n + 7 * n + 5 == 1 + (2 * k * k + 7 * k + 5) + (2 * (2 * k + 3) + 2))
            by (nonlinear_arith)
            requires
                n == k + 1,
        ;
    }
}

/// Closed forms of the first row.
proof fn lemma_first_row(n: nat)
    ensures
        ackermann(1, n) == n + 2,
        ackermann_steps(1, n) == 2 * n + 2,
    decreases n,
{
    reveal_with_fuel(ackermann, 3);
    reveal_with_fuel(ackermann_steps, 3);
    if n > 0 {
        lemma_first_row((n - 1) as nat);
    }
}

/// The third row and its step count, for the arguments within the budget.
proof fn lemma_third_row()
    ensures
        ackermann(3, 0) == 5 && ackermann_steps(3, 0) == 15,
        ackermann(3, 1) == 13 && ackermann_steps(3, 1) == 106,
        ackermann(3, 2) == 29 && ackermann_steps(3, 2) == 541,
        ackermann(3, 3) == 61 && ackermann_steps(3, 3) == 2432,
        ackermann(3, 4) == 125 && ackermann_steps(3, 4) == 10307,
        ackermann(3, 5) == 253 && ackermann_steps(3, 5) == 42438,
{
    lemma_small_rows(1);
    lemma_third_row_step(0, 5);
    lemma_third_row_step(1, 13);
    lemma_third_row_step(2, 29);
    lemma_third_row_step(3, 61);
    lemma_third_row_step(4, 125);
}

/// One step along the third row, from the value `value`.
proof fn lemma_third_row_step(n: nat, value: nat)
    requires
        ackermann(3, n) == value,
    ensures
        ackermann(3, n + 1) == 2 * value + 3,
        ackermann_steps(3, n + 1) == ackermann_steps(3, n) + 2 * value * value + 7 * value + 6,
{
    lemma_small_rows(value);
}

/// Whenever the evaluation fits the step budget, the bounded value is the Ackermann function's.
pub proof fn law_bounded_value_is_ackermann(m: u32, n: u32)
    requires
        ackermann_steps((m % 4) as nat, (n % 16) as nat) <= MAX_STEPS,
    ensures
        bounded_ackermann(m, n) == ackermann((m % 4) as nat, (n % 16) as nat),
{
    let first = (m % 4) as nat;
    let second = (n % 16) as nat;
    lemma_value_bound(first, second);
    assert(seq![first] =~= Seq::<nat>::empty().push(first));
    lemma_machine_evaluates(Seq::empty(), first, second, 0);
}

/// The pending arguments `rest` with `count` times the argument `m` behind them.
spec fn stacked(rest: Seq<nat>, m: nat, count: nat) -> Seq<nat> {
    rest + Seq::new(count, |i: int| m)
}

/// The last of several equal arguments.
proof fn lemma_stacked_last(rest: Seq<nat>, m: nat, count: nat)
    requires
        count > 0,
    ensures
        stacked(rest, m, count) == stacked(rest, m, (count - 1) as nat).push(m),
{
    assert(stacked(rest, m, count) =~= stacked(rest, m, (count - 1) as nat).push(m));
}

/// Counting the running value down leaves one lower argument behind for each step.
proof fn lemma_machine_descends(rest: Seq<nat>, m: nat, n: nat, steps: nat, k: nat)
    requires
        m > 0,
        k <= n,
        steps + k <= MAX_STEPS,
    ensures
        machine(rest.push(m), n, steps) == machine(
            stacked(rest, (m - 1) as nat, k).push(m),
            (n - k) as nat,
            steps + k,
        ),
    decreases k,
{
    if k == 0 {
        assert(stacked(rest, (m - 1) as nat, 0) =~= rest);
    } else {
        let before = stacked(rest, (m - 1) as nat, (k - 1) as nat);
        lemma_machine_descends(rest, m, n, steps, (k - 1) as nat);
        lemma_stacked_last(rest, (m - 1) as nat, k);
        assert(before.push(m).drop_last() =~= before);
    }
}

/// Counting all the way down replaces an argument by one lower argument more than the running value.
proof fn lemma_machine_unfolds(rest: Seq<nat>, m: nat, n: nat, steps: nat)
    requires
        m > 0,
        steps + n + 1 <= MAX_STEPS,
    ensures
        machine(rest.push(m), n, steps) == machine(
            stacked(rest, (m - 1) as nat, n + 1),
            1,
            steps + n + 1,
        ),
{
    let before = stacked(rest, (m - 1) as nat, n);
    lemma_machine_descends(rest, m, n, steps, n);
    lemma_stacked_last(rest, (m - 1) as nat, n + 1);
    assert(before.push(m).drop_last() =~= before);
}

/// Each argument zero raises the running value by one.
proof fn lemma_machine_zeros(rest: Seq<nat>, count: nat, n: nat, steps: nat, k: nat)
    requires
        k <= count,
        steps + k <= MAX_STEPS,
    ensures
        machine(stacked(rest, 0, count), n, steps) == machine(
            stacked(rest, 0, (count - k) as nat),
            n + k,
            steps + k,
        ),
    decreases k,
{
    if k > 0 {
        let left = (count - k) as nat;
        lemma_machine_zeros(rest, count, n, steps, (k - 1) as nat);
        lemma_stacked_last(rest, 0, left + 1);
        assert(stacked(rest, 0, left).push(0).drop_last() =~= stacked(rest, 0, left));
    }
}

/// Each argument one raises the running value by two, at a cost that grows with it.
proof fn lemma_machine_ones(rest: Seq<nat>, count: nat, steps: nat, k: nat)
    requires
        k <= count,
        steps + 2 * (k * (k + 1)) <= MAX_STEPS,
    ensures
        machine(stacked(rest, 1, count), 1, steps) == machine(
            stacked(rest, 1, (count - k) as nat),
            1 + 2 * k,
            steps + 2 * (k * (k + 1)),
        ),
    decreases k,
{
    if k > 0 {
        let j = (k - 1) as nat;
        let left = (count - k) as nat;
        assert(k * (k + 1) == j * (j + 1) + 2 * k) by (nonlinear_arith)
            requires
                k == j + 1,
        ;
        lemma_machine_ones(rest, count, steps, j);
        lemma_stacked_last(rest, 1, left + 1);
        lemma_first_row(1 + 2 * j);
        lemma_machine_evaluates(stacked(rest, 1, left), 1, 1 + 2 * j, steps + 2 * (j * (j + 1)));
    } else {
        assert(k * (k + 1) == 0) by (nonlinear_arith)
            requires
                k == 0,
        ;
    }
}

/// An argument two takes the running value `n` to `2n + 3`.
proof fn lemma_machine_two(count: nat, n: nat, steps: nat)
    requires
        count > 0,
        steps + 2 * n * n + 7 * n + 5 <= MAX_STEPS,
    ensures
        machine(stacked(Seq::empty(), 2, count), n, steps) == machine(
            stacked(Seq::empty(), 2, (count - 1) as nat),
            2 * n + 3,
            steps + 2 * n * n + 7 * n + 5,
        ),
{
    lemma_stacked_last(Seq::empty(), 2, count);
    lemma_small_rows(n);
    lemma_machine_evaluates(stacked(Seq::empty(), 2, (count - 1) as nat), 2, n, steps);
}

/// Where a run of the third row stands when its budget is used up.
proof fn lemma_third_row_is_cut(n: nat)
    requires
        6 <= n <= 15,
    ensures
        machine(seq![3nat], n, 0) == ((114 - n) as u32) ^ 50_001u32,
{
    let none = Seq::<nat>::empty();
    assert(seq![3nat] =~= none.push(3));
    lemma_machine_unfolds(none, 3, n, 0);
    lemma_machine_two(n + 1, 1, n + 1);
    lemma_machine_two(n, 5, n + 15);
    lemma_machine_two((n - 1) as nat, 13, n + 105);
    lemma_machine_two((n - 2) as nat, 29, n + 539);
    lemma_machine_two((n - 3) as nat, 61, n + 2429);
    lemma_machine_two((n - 4) as nat, 125, n + 10303);
    let twos = stacked(none, 2, (n - 6) as nat);
    lemma_stacked_last(none, 2, (n - 5) as nat);
    lemma_machine_unfolds(twos, 2, 253, n + 42433);
    lemma_machine_ones(twos, 254, n + 42687, 59);
    let ones = stacked(twos, 1, 194);
    lemma_stacked_last(twos, 1, 195);
    lemma_machine_unfolds(ones, 1, 119, n + 49767);
    lemma_machine_zeros(ones, 120, 1, n + 49887, (113 - n) as nat);
    lemma_stacked_last(ones, 0, n + 7);
    let value = (114 - n) as u32;
    assert(value ^ 0u32 ^ 50_001u32 == value ^ 50_001u32) by (bit_vector);
}

/// Every bounded value in closed form. The first three rows, and the third up to its argument five,
/// fit the budget: `n + 1`, `n + 2`, `2n + 3` and `2^(n + 3) - 3`. From its argument six on the third
/// row is cut short, and gives the exclusive or of `114 - n` and the number of the step that was one
/// too many.
pub proof fn law_bounded_ackermann_rows(m: u32, n: u32)
    ensures
        m % 4 == 0 ==> bounded_ackermann(m, n) == n % 16 + 1,
        m % 4 == 1 ==> bounded_ackermann(m, n) == n % 16 + 2,
        m % 4 == 2 ==> bounded_ackermann(m, n) == 2 * (n % 16) + 3,
        m % 4 == 3 && n % 16 <= 5 ==> bounded_ackermann(m, n) == pow2(((n % 16) + 3) as nat) - 3,
        m % 4 == 3 && n % 16 >= 6 ==> bounded_ackermann(m, n) == ((114 - n % 16) as u32) ^ 50_001,
{
    let first = (m % 4) as nat;
    let second = (n % 16) as nat;
    lemma_small_rows(second);
    if first < 3 || second <= 5 {
        lemma_third_row();
        assert(2 * second * second <= 450) by (nonlinear_arith)
            requires
                second <= 15,
        ;
        assert(ackermann_steps(first, second) <= MAX_STEPS);
        law_bounded_value_is_ackermann(m, n);
        vstd::arithmetic::power2::lemma2_to64();
    } else {
        lemma_third_row_is_cut(second);
    }
}

/// Evaluates the Ackermann function of the lowest bits of `m` and `n` on an explicit stack, giving
/// up after `MAX_STEPS` steps.
pub fn crypto_ackermann(m: u32, n: u32) -> (value: u32)
    ensures
        value == bounded_ackermann(m, n),
        ackermann_steps((m % 4) as nat, (n % 16) as nat) <= MAX_STEPS ==> value == ackermann(
            (m % 4) as nat,
            (n % 16) as nat,
        ),
{
    let first: u32 = m & 0x03;
    let mut value: u32 = n & 0x0F;
    proof {
        assert(m & 0x03 == m % 4) by (bit_vector);
        assert(n & 0x0F == n % 16) by (bit_vector);
        if ackermann_steps((m % 4) as nat, (n % 16) as nat) <= MAX_STEPS {
            law_bounded_value_is_ackermann(m, n);
        }
    }
    let mut stack: Vec<u32> = Vec::with_capacity(1024);
    stack.push(first);
    let mut steps: u32 = 0;
    let ghost result = bounded_ackermann(m, n);
    assert(pending(stack@) =~= seq![(m % 4) as nat]);
    loop
        invariant
            steps <= MAX_STEPS,
            value <= 15 + steps,
            stack@.len() <= 1 + steps,
            result == machine(pending(stack@), value as nat, steps as nat),
            result == bounded_ackermann(m, n),
            ackermann_steps((m % 4) as nat, (n % 16) as nat) <= MAX_STEPS ==> result == ackermann(
                (m % 4) as nat,
                (n % 16) as nat,
            ),
        decreases MAX_STEPS + 1 - steps,
    {
        let ghost before = stack@;
        match stack.pop() {
            None => {
                return value;
            },
            Some(current) => {
                assert(pending(before).drop_last() =~= pending(stack@));
                steps = steps + 1;
                if steps > MAX_STEPS {
                    return value ^ current ^ steps;
                }
                if current == 0 {
                    value = value + 1;
                } else if value == 0 {
                    stack.push(current - 1);
                    value = 1;
                    assert(pending(stack@) =~= pending(before).drop_last().push((current - 1) as nat));
                } else {
                    stack.push(current - 1);
                    stack.push(current);
                    value = value - 1;
                    assert(pending(stack@) =~= pending(before).drop_last().push(
                        (current - 1) as nat,
                    ).push(current as nat));
                }
            },
        }
    }
}

/// The stack's entries as mathematical numbers.
spec fn pending(stack: Seq<u32>) -> Seq<nat> {
    stack.map_values(|m: u32| m as nat)
}

/// The byte of the whitened nonce at position `i`: in each pair of bytes, the first is combined
/// with the low byte of the pair's bounded Ackermann value, the second with its next byte.
pub open spec fn whitened_byte(os_nonce: Seq<u8>, i: int) -> u8 {
    let pair = 2 * (i / 2);
    let value = bounded_ackermann(os_nonce[pair] as u32, os_nonce[pair + 1] as u32);
    if i % 2 == 0 {
        os_nonce[i] ^ ((value % 256) as u8)
    } else {
        os_nonce[i] ^ ((value / 256 % 256) as u8)
    }
}

/// The whitened nonce of twelve random bytes.
pub open spec fn ackermann_nonce(os_nonce: Seq<u8>) -> Seq<u8> {
    Seq::new(NONCE_LEN as nat, |i: int| whitened_byte(os_nonce, i))
}

/// Combines each pair of the operating system's random bytes with its bounded Ackermann value.
pub fn generate_ackermann_nonce(os_nonce: &[u8; 12]) -> (nonce: [u8; 12])
    ensures
        nonce@ == ackermann_nonce(os_nonce@),
{
    let mut nonce: [u8; 12] = [0; 12];
    let mut i: usize = 0;
    while i < 6
        invariant
            i <= 6,
            forall|k: int| 0 <= k < 2 * i ==> nonce@[k] == whitened_byte(os_nonce@, k),
        decreases 6 - i,
    {
        let byte_m: u8 = os_nonce[2 * i];
        let byte_n: u8 = os_nonce[2 * i + 1];
        let value: u32 = crypto_ackermann(byte_m as u32, byte_n as u32);
        let low: u8 = (value & 0xFF) as u8;
        let high: u8 = ((value >> 8) & 0xFF) as u8;
        proof {
            assert(value & 0xFF == value % 256) by (bit_vector);
            assert((value >> 8) & 0xFF == value / 256 % 256) by (bit_vector);
        }
        nonce[2 * i] = byte_m ^ low;
        nonce[2 * i + 1] = byte_n ^ high;
        i = i + 1;
    }
    assert(nonce@ =~= ackermann_nonce(os_nonce@));
    nonce
}

/// Each pair of bytes of a whitened nonce, in closed form. The pair's first byte is combined with what
/// the rows of the Ackermann function give; its second byte changes only where the run is cut short.
pub proof fn law_whitened_pairs(os_nonce: Seq<u8>, i: int)
    requires
        os_nonce.len() == 12,
        0 <= i < 6,
    ensures
        ackermann_nonce(os_nonce).len() == 12,
        ({
            let m = os_nonce[2 * i];
            let n = os_nonce[2 * i + 1];
            let first = ackermann_nonce(os_nonce)[2 * i];
            let second = ackermann_nonce(os_nonce)[2 * i + 1];
            &&& m % 4 == 0 ==> first == m ^ ((n % 16 + 1) as u8) && second == n
            &&& m % 4 == 1 ==> first == m ^ ((n % 16 + 2) as u8) && second == n
            &&& m % 4 == 2 ==> first == m ^ ((2 * (n % 16) + 3) as u8) && second == n
            &&& m % 4 == 3 && n % 16 <= 5 ==> first == m ^ ((pow2((n % 16 + 3) as nat) - 3) as u8)
                && second == n
            &&& m % 4 == 3 && n % 16 >= 6 ==> first == m ^ (((114 - n % 16) as u8) ^ 0x51)
                && second == n ^ 0xC3
        }),
{
    let m = os_nonce[2 * i];
    let n = os_nonce[2 * i + 1];
    let value = bounded_ackermann(m as u32, n as u32);
    law_bounded_ackermann_rows(m as u32, n as u32);
    vstd::arithmetic::power2::lemma2_to64();
    assert((2 * i + 1) / 2 == i && (2 * i + 1) % 2 == 1);
    assert(n ^ 0u8 == n) by (bit_vector);
    if m % 4 == 3 && n % 16 >= 6 {
        let rest = (114 - n % 16) as u32;
        assert(((rest ^ 50_001u32) % 256) as u8 == (rest as u8) ^ 0x51u8 && (rest ^ 50_001u32) / 256
            % 256 == 0xC3) by (bit_vector)
            requires
                rest < 128,
        ;
    } else {
        assert(value < 256);
    }
}

/// The equations of the Ackermann function, and how many steps each side of them takes.
pub proof fn law_ackermann_equations(m: nat, n: nat)
    ensures
        ackermann(0, n) == n + 1,
        ackermann(m + 1, 0) == ackermann(m, 1),
        ackermann(m + 1, n + 1) == ackermann(m, ackermann(m + 1, n)),
        ackermann_steps(0, n) == 1,
        ackermann_steps(m + 1, 0) == 1 + ackermann_steps(m, 1),
        ackermann_steps(m + 1, n + 1) == 1 + ackermann_steps(m + 1, n) + ackermann_steps(
            m,
            ackermann(m + 1, n),
        ),
{
}

} // verus!
