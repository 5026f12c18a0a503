//! The slots of a picture that carry hidden bits, and the order in which they do.
//!
//! Slot number `s` is the lowest bit of colour `s % 3` of pixel `s / 3`.
use crate::primitives::{chacha20_from_seed, chacha20_next, chacha20_word, words_ahead};
use rand_chacha::ChaCha20Rng;
use vstd::prelude::*;
use vstd::set_lib::{lemma_int_range, set_int_range};

verus! {

/// Number of slots that the salt fills: the first of the picture, in turn.
pub const SALT_SLOTS: usize = 128;

/// A list of indices as mathematical integers.
pub open spec fn as_ints(indices: Seq<usize>) -> Seq<int> {
    indices.map_values(|i: usize| i as int)
}

/// One exchange of a shuffle: entry `i` changes places with the one that the word picks among the
/// entries up to it.
pub open spec fn exchanged(order: Seq<int>, i: int, word: u64) -> Seq<int> {
    let j = word as int % (i + 1);
    order.update(i, order[j]).update(j, order[i])
}

/// The pixels after the first `count` exchanges of a shuffle, which start at the last entry.
pub open spec fn shuffled(words: Seq<u64>, count: nat) -> Seq<int>
    decreases count,
{
    if count == 0 {
        Seq::new(words.len() + 1, |i: int| i)
    } else {
        exchanged(
            shuffled(words, (count - 1) as nat),
            words.len() + 1 - count,
            words[count - 1],
        )
    }
}

/// The shuffled order of one pixel more than there are words.
pub open spec fn pixel_order(words: Seq<u64>) -> Seq<int> {
    shuffled(words, words.len())
}

/// The words that a seed gives for a shuffle of `pixels` pixels.
pub open spec fn shuffle_words(seed: Seq<u8>, pixels: nat) -> Seq<u64> {
    Seq::new((pixels - 1) as nat, |i: int| chacha20_word(seed, i as nat))
}

/// Each of the numbers below `count` exactly once.
pub open spec fn is_permutation(order: Seq<int>, count: nat) -> bool {
    &&& order.len() == count
    &&& forall|i: int| 0 <= i < count ==> 0 <= #[trigger] order[i] < count
    &&& order.no_duplicates()
}

/// The three slots of each pixel, in the order of the pixels.
pub open spec fn slots_in_order(order: Seq<int>) -> Seq<int> {
    Seq::new(3 * order.len(), |k: int| 3 * order[k / 3] + k % 3)
}

/// Whether a slot is not the salt's.
pub open spec fn is_free(slot: int) -> bool {
    slot >= SALT_SLOTS
}

/// The slots that are not the salt's, in the order of the pixels.
pub open spec fn free_slots(order: Seq<int>) -> Seq<int> {
    slots_in_order(order).filter(|slot: int| is_free(slot))
}

/// The salt's slots.
pub open spec fn salt_slots() -> Seq<int> {
    Seq::new(SALT_SLOTS as nat, |k: int| k)
}

/// All slots in the order in which they carry bits: the salt's, and after them the free ones.
pub open spec fn carriers(order: Seq<int>) -> Seq<int> {
    salt_slots() + free_slots(order)
}

/// A shuffle keeps every pixel exactly once.
pub proof fn law_shuffle_is_permutation(words: Seq<u64>, count: nat)
    requires
        count <= words.len(),
    ensures
        is_permutation(shuffled(words, count), words.len() + 1),
    decreases count,
{
    if count > 0 {
        law_shuffle_is_permutation(words, (count - 1) as nat);
        let before = shuffled(words, (count - 1) as nat);
        let i = words.len() + 1 - count;
        let j = words[count - 1] as int % (i + 1);
        let after = shuffled(words, count);
        assert(0 <= j <= i < before.len());
        assert forall|a: int, b: int|
            0 <= a < after.len() && 0 <= b < after.len() && a != b implies after[a] != after[b] by {
            let pre_a = if a == j {
                i
            } else if a == i {
                j
            } else {
                a
            };
            let pre_b = if b == j {
                i
            } else if b == i {
                j
            } else {
                b
            };
            assert(after[a] == before[pre_a] && after[b] == before[pre_b]);
        }
    }
}

/// The slots of all pixels, in a permuted order, are all slots, each once.
proof fn lemma_slots_are_permutation(order: Seq<int>)
    requires
        is_permutation(order, order.len()),
    ensures
        is_permutation(slots_in_order(order), 3 * order.len()),
{
    let slots = slots_in_order(order);
    assert forall|i: int| 0 <= i < slots.len() implies 0 <= #[trigger] slots[i] < 3 * order.len() by {
        assert(0 <= order[i / 3] < order.len());
    }
    assert forall|a: int, b: int|
        0 <= a < slots.len() && 0 <= b < slots.len() && a != b implies slots[a] != slots[b] by {
        if slots[a] == slots[b] {
            let p = order[a / 3];
            let q = order[b / 3];
            assert(3 * p + a % 3 == 3 * q + b % 3);
            assert(p == q && a % 3 == b % 3);
            assert(a / 3 == b / 3);
        }
    }
}

/// A permutation of the numbers below `count` has each of them somewhere.
proof fn lemma_permutation_covers(order: Seq<int>, count: nat, value: int)
    requires
        is_permutation(order, count),
        0 <= value < count,
    ensures
        order.contains(value),
{
    order.unique_seq_to_set();
    vstd::seq_lib::seq_to_set_is_finite(order);
    lemma_int_range(0, count as int);
    let range = set_int_range(0, count as int);
    assert(order.to_set().subset_of(range));
    vstd::set_lib::lemma_subset_equality(order.to_set(), range);
    assert(order.to_set().contains(value));
}

/// Filtering keeps a sequence free of duplicates, and its entries among those of the sequence.
proof fn lemma_filter_keeps_distinct(s: Seq<int>, pred: spec_fn(int) -> bool)
    requires
        s.no_duplicates(),
    ensures
        s.filter(pred).no_duplicates(),
        forall|i: int| 0 <= i < s.filter(pred).len() ==> s.contains(#[trigger] s.filter(pred)[i]),
    decreases s.len(),
{
    reveal(Seq::filter);
    if s.len() > 0 {
        let rest = s.drop_last();
        lemma_filter_keeps_distinct(rest, pred);
        let kept = rest.filter(pred);
        assert forall|i: int| 0 <= i < kept.len() implies s.contains(#[trigger] kept[i]) && kept[i]
            != s.last() by {
            let k = choose|k: int| 0 <= k < rest.len() && rest[k] == kept[i];
            assert(s[k] == kept[i]);
        }
        if pred(s.last()) {
            assert(s.filter(pred) =~= kept.push(s.last()));
            assert(s[s.len() - 1] == s.last());
        }
    }
}

/// Whatever order the pixels are in, the carriers are all slots, each once, and the salt's come
/// first.
pub proof fn law_carriers_are_permutation(order: Seq<int>)
    requires
        is_permutation(order, order.len()),
        3 * order.len() >= SALT_SLOTS,
    ensures
        is_permutation(carriers(order), 3 * order.len()),
        forall|k: int| 0 <= k < SALT_SLOTS ==> carriers(order)[k] == k,
{
    let all = slots_in_order(order);
    let pred = |slot: int| is_free(slot);
    let free = free_slots(order);
    let total = 3 * order.len() as int;
    lemma_slots_are_permutation(order);
    lemma_filter_keeps_distinct(all, pred);
    broadcast use vstd::seq_lib::group_filter_ensures;
    assert forall|i: int| 0 <= i < free.len() implies SALT_SLOTS <= #[trigger] free[i] < total by {
        assert(pred(free[i]));
        let k = choose|k: int| 0 <= k < all.len() && all[k] == free[i];
        assert(all[k] < total);
    }
    let range = set_int_range(SALT_SLOTS as int, total);
    assert forall|slot: int| range.contains(slot) implies free.to_set().contains(slot) by {
        lemma_permutation_covers(all, total as nat, slot);
        let k = choose|k: int| 0 <= k < all.len() && all[k] == slot;
        assert(pred(all[k]));
        assert(free.contains(all[k]));
    }
    assert(free.to_set() =~= range);
    free.unique_seq_to_set();
    lemma_int_range(SALT_SLOTS as int, total);
    let whole = carriers(order);
    assert forall|a: int, b: int|
        0 <= a < whole.len() && 0 <= b < whole.len() && a != b implies whole[a] != whole[b] by {
        if a >= SALT_SLOTS && b >= SALT_SLOTS {
            assert(free[a - SALT_SLOTS] != free[b - SALT_SLOTS]);
        }
    }
}

/// Draws the words that a seed gives for a shuffle of `pixels` pixels.
pub fn draw_words(seed: [u8; 32], pixels: usize) -> (words: Vec<u64>)
    requires
        pixels > 0,
    ensures
        words@ == shuffle_words(seed@, pixels as nat),
{
    let mut rng: ChaCha20Rng = chacha20_from_seed(seed);
    let mut words: Vec<u64> = Vec::with_capacity(pixels - 1);
    while words.len() < pixels - 1
        invariant
            pixels > 0,
            words@.len() <= pixels - 1,
            forall|i: int| 0 <= i < words@.len() ==> words@[i] == chacha20_word(seed@, i as nat),
            forall|i: int|
                i >= 0 ==> #[trigger] words_ahead(rng)[i] == chacha20_word(
                    seed@,
                    (words@.len() + i) as nat,
                ),
        decreases pixels - 1 - words@.len(),
    {
        let word: u64 = chacha20_next(&mut rng);
        words.push(word);
    }
    assert(words@ =~= shuffle_words(seed@, pixels as nat));
    words
}

/// Shuffles one pixel more than there are words.
pub fn shuffle_pixels(words: &[u64]) -> (order: Vec<usize>)
    requires
        words@.len() < usize::MAX,
    ensures
        as_ints(order@) == pixel_order(words@),
{
    let pixels: usize = words.len() + 1;
    let mut order: Vec<usize> = Vec::with_capacity(pixels);
    let mut p: usize = 0;
    while p < pixels
        invariant
            p <= pixels,
            order@.len() == p,
            forall|k: int| 0 <= k < p ==> order@[k] == k,
        decreases pixels - p,
    {
        order.push(p);
        p = p + 1;
    }
    let mut count: usize = 0;
    while count < words.len()
        invariant
            pixels == words@.len() + 1,
            count <= words@.len(),
            order@.len() == pixels,
            forall|k: int| 0 <= k < pixels ==> order@[k] == shuffled(words@, count as nat)[k],
        decreases words@.len() - count,
    {
        let i: usize = pixels - 1 - count;
        let j: usize = (words[count] % (i as u64 + 1)) as usize;
        proof {
            law_shuffle_is_permutation(words@, count as nat);
        }
        let at_i: usize = order[i];
        let at_j: usize = order[j];
        order[i] = at_j;
        order[j] = at_i;
        count = count + 1;
    }
    proof {
        law_shuffle_is_permutation(words@, words@.len());
        assert(as_ints(order@) =~= pixel_order(words@));
    }
    order
}

/// The slots that are not the salt's, in the order of the pixels.
pub fn list_free_slots(order: &[usize]) -> (slots: Vec<usize>)
    requires
        4 * order@.len() <= usize::MAX,
        forall|k: int| 0 <= k < order@.len() ==> order@[k] < order@.len(),
    ensures
        as_ints(slots@) == free_slots(as_ints(order@)),
{
    let ghost all = slots_in_order(as_ints(order@));
    let ghost pred = |slot: int| is_free(slot);
    let total: usize = 3 * order.len();
    let mut slots: Vec<usize> = Vec::new();
    let mut k: usize = 0;
    proof {
        reveal(Seq::filter);
        assert(all.take(0) =~= Seq::<int>::empty());
        assert(as_ints(slots@) =~= all.take(0).filter(pred));
    }
    while k < total
        invariant
            k <= total == 3 * order@.len(),
            4 * order@.len() <= usize::MAX,
            forall|i: int| 0 <= i < order@.len() ==> order@[i] < order@.len(),
            all == slots_in_order(as_ints(order@)),
            pred == (|slot: int| is_free(slot)),
            as_ints(slots@) == all.take(k as int).filter(pred),
        decreases total - k,
    {
        let slot: usize = 3 * order[k / 3] + k % 3;
        let ghost before = slots@;
        proof {
            reveal(Seq::filter);
            assert(all.take(k + 1).drop_last() =~= all.take(k as int));
            assert(all.take(k + 1).last() == slot);
        }
        if slot >= SALT_SLOTS {
            slots.push(slot);
            assert(as_ints(slots@) =~= as_ints(before).push(slot as int));
        }
        k = k + 1;
    }
    assert(all.take(total as int) =~= all);
    slots
}

/// The salt's slots.
pub fn list_salt_slots() -> (slots: Vec<usize>)
    ensures
        as_ints(slots@) == salt_slots(),
{
    let mut slots: Vec<usize> = Vec::with_capacity(SALT_SLOTS);
    while slots.len() < SALT_SLOTS
        invariant
            slots@.len() <= SALT_SLOTS,
            forall|k: int| 0 <= k < slots@.len() ==> slots@[k] == k,
        decreases SALT_SLOTS - slots@.len(),
    {
        let next: usize = slots.len();
        slots.push(next);
    }
    assert(as_ints(slots@) =~= salt_slots());
    slots
}

/// All slots in the order in which they carry bits, where the words shuffle the pixels.
pub fn list_carriers(words: &[u64]) -> (slots: Vec<usize>)
    requires
        4 * (words@.len() + 1) <= usize::MAX,
    ensures
        as_ints(slots@) == carriers(pixel_order(words@)),
{
    let order: Vec<usize> = shuffle_pixels(words);
    proof {
        law_shuffle_is_permutation(words@, words@.len());
        assert forall|k: int| 0 <= k < order@.len() implies order@[k] < order@.len() by {
            assert(order@[k] == as_ints(order@)[k]);
        }
    }
    let mut free: Vec<usize> = list_free_slots(order.as_slice());
    let mut slots: Vec<usize> = list_salt_slots();
    let ghost salted = slots@;
    let ghost others = free@;
    slots.append(&mut free);
    assert(as_ints(slots@) =~= as_ints(salted) + as_ints(others));
    slots
}

/// A shuffle starts with the pixels in turn.
pub proof fn law_shuffle_start(words: Seq<u64>, p: int)
    requires
        0 <= p <= words.len(),
    ensures
        shuffled(words, 0).len() == words.len() + 1,
        shuffled(words, 0)[p] == p,
{
}

/// Each exchange of a shuffle, from the last entry down, swaps an entry with the one at the word's
/// remainder by the number of entries up to it, and leaves all others.
pub proof fn law_shuffle_exchange(words: Seq<u64>, count: nat, p: int)
    requires
        count < words.len(),
        0 <= p <= words.len(),
    ensures
        ({
            let before = shuffled(words, count);
            let after = shuffled(words, count + 1);
            let i = words.len() - count;
            let j = words[count as int] as int % (words.len() - count + 1);
            &&& 0 <= j <= i <= words.len()
            &&& after.len() == words.len() + 1
            &&& after[p] == if p == i {
                before[j]
            } else if p == j {
                before[i]
            } else {
                before[p]
            }
        }),
{
    law_shuffle_is_permutation(words, count);
}

/// The order of the pixels is that after as many exchanges as there are words.
pub proof fn law_shuffle_end(words: Seq<u64>)
    ensures
        pixel_order(words) == shuffled(words, words.len()),
{
}

/// A shuffle of `pixels` pixels takes the first `pixels - 1` words of the seed's ChaCha20 stream.
pub proof fn law_shuffle_words(seed: Seq<u8>, pixels: nat, k: int)
    requires
        pixels > 0,
    ensures
        shuffle_words(seed, pixels).len() == pixels - 1,
        0 <= k < pixels - 1 ==> shuffle_words(seed, pixels)[k] == chacha20_word(seed, k as nat),
{
}

/// A filtered sequence has the entries that pass in the order in which they stood: those at two
/// places, one before the other, are kept at two places, one before the other.
proof fn lemma_filter_keeps_order(s: Seq<int>, pred: spec_fn(int) -> bool, x: int, y: int)
    requires
        0 <= x < y < s.len(),
        pred(s[x]),
        pred(s[y]),
    ensures
        exists|a: int, b: int|
            0 <= a < b < s.filter(pred).len() && #[trigger] s.filter(pred)[a] == s[x]
                && #[trigger] s.filter(pred)[b] == s[y],
    decreases s.len(),
{
    reveal(Seq::filter);
    let rest = s.drop_last();
    let kept = rest.filter(pred);
    let whole = s.filter(pred);
    if y < s.len() - 1 {
        lemma_filter_keeps_order(rest, pred, x, y);
        let (a, b) = choose|a: int, b: int|
            0 <= a < b < kept.len() && #[trigger] kept[a] == rest[x] && #[trigger] kept[b]
                == rest[y];
        assert(whole[a] == s[x] && whole[b] == s[y]);
    } else {
        assert(rest[x] == s[x]);
        broadcast use vstd::seq_lib::group_filter_ensures;

        assert(rest.contains(s[x]));
        assert(kept.contains(s[x]));
        let a = choose|a: int| 0 <= a < kept.len() && kept[a] == s[x];
        assert(whole =~= kept.push(s.last()));
        assert(whole[a] == s[x] && whole[kept.len() as int] == s[y]);
    }
}

/// The carriers after the salt's go through the pixels in their order and through each pixel's
/// colours in turn, leaving the salt's slots out: of two free slots, the one whose pixel comes first,
/// or whose colour does, carries first.
pub proof fn law_carriers_follow_the_pixels(order: Seq<int>, x: int, y: int)
    requires
        0 <= x < y < 3 * order.len(),
        3 * order[x / 3] + x % 3 >= 128,
        3 * order[y / 3] + y % 3 >= 128,
    ensures
        exists|a: int, b: int|
            128 <= a < b < carriers(order).len() && #[trigger] carriers(order)[a] == 3 * order[x
                / 3] + x % 3 && #[trigger] carriers(order)[b] == 3 * order[y / 3] + y % 3,
{
    let all = slots_in_order(order);
    let pred = |slot: int| is_free(slot);
    let free = free_slots(order);
    lemma_filter_keeps_order(all, pred, x, y);
    let (a, b) = choose|a: int, b: int|
        0 <= a < b < free.len() && #[trigger] free[a] == all[x] && #[trigger] free[b] == all[y];
    assert(carriers(order)[128 + a] == all[x] && carriers(order)[128 + b] == all[y]);
}

/// There are as many carriers as slots, the first 128 of them are the first 128 slots in turn, and
/// every slot is a carrier once.
pub proof fn law_every_slot_carries(order: Seq<int>, slot: int)
    requires
        is_permutation(order, order.len()),
        3 * order.len() >= 128,
        0 <= slot < 3 * order.len(),
    ensures
        carriers(order).len() == 3 * order.len(),
        slot < 128 ==> carriers(order)[slot] == slot,
        exists|a: int| 0 <= a < carriers(order).len() && carriers(order)[a] == slot,
        forall|a: int, b: int|
            0 <= a < b < carriers(order).len() ==> carriers(order)[a] != carriers(order)[b],
{
    law_carriers_are_permutation(order);
    lemma_permutation_covers(carriers(order), 3 * order.len(), slot);
}

/// What it is to have each of the numbers below `count` exactly once.
pub proof fn law_permutation(order: Seq<int>, count: nat)
    ensures
        is_permutation(order, count) == (order.len() == count && (forall|i: int|
            0 <= i < count ==> 0 <= #[trigger] order[i] < count) && (forall|i: int, j: int|
            0 <= i < count && 0 <= j < count && i != j ==> order[i] != order[j])),
{
}

/// Indices stay what they are.
pub proof fn law_indices(indices: Seq<usize>, i: int)
    ensures
        as_ints(indices).len() == indices.len(),
        0 <= i < indices.len() ==> as_ints(indices)[i] == indices[i],
{
}

/// What the lists of slots have: the salt's slots are the first 128 in turn, each pixel has three, and
/// the free ones are the carriers behind the salt's.
pub proof fn law_slot_lists(order: Seq<int>, k: int)
    ensures
        salt_slots().len() == 128,
        0 <= k < 128 ==> salt_slots()[k] == k,
        slots_in_order(order).len() == 3 * order.len(),
        0 <= k < 3 * order.len() ==> slots_in_order(order)[k] == 3 * order[k / 3] + k % 3,
        is_free(k) == (k >= 128),
        free_slots(order) == carriers(order).skip(128),
{
    assert(free_slots(order) =~= carriers(order).skip(128));
}

} // verus!
