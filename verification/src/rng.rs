//! Seeded random draws: the generator of the `rand` crate, and verified batches of draws.
//!
//! A generator is modelled by the stream of 32-bit words that it still has to give. Every draw is
//! a function of that stream, so whatever is drawn is a function of the seed alone.
use vstd::prelude::*;
use rand::rngs::StdRng;
use rand::seq::SliceRandom;
use rand::{Rng, SeedableRng};

verus! {

/// The generator `rand::rngs::StdRng`.
#[verifier::external_type_specification]
#[verifier::external_body]
pub struct ExStdRng(StdRng);

/// The words that a generator still has to give, in order.
pub uninterp spec fn rng_words(rng: StdRng) -> Map<nat, u32>;

/// The words that a generator seeded with `seed` gives.
pub uninterp spec fn seeded_words(seed: u64) -> Map<nat, u32>;

/// The value of `low..=high` that is drawn from `words`, and the words that are left. How many
/// words a draw takes depends on the width of `usize`.
pub uninterp spec fn range_draw(
    words: Map<nat, u32>,
    usize_bits: u32,
    low: usize,
    high: usize,
) -> (usize, Map<nat, u32>);

/// The order into which `positions` are shuffled by `words`, and the words that are left.
pub uninterp spec fn shuffle_draw(words: Map<nat, u32>, positions: Seq<usize>) -> (
    Seq<usize>,
    Map<nat, u32>,
);

/// Calls `StdRng::seed_from_u64`: the words of the new generator are a function of the seed.
#[verifier::external_body]
pub(crate) fn seeded(seed: u64) -> (rng: StdRng)
    ensures
        rng_words(rng) == seeded_words(seed),
{
    StdRng::seed_from_u64(seed)
}

/// Calls `Rng::gen_range` on an inclusive range: the value lies in the range, and it and the
/// words that are left are a function of the words that were there. A half-open range
/// `low..high` draws as `low..=high - 1` does.
#[verifier::external_body]
pub(crate) fn draw_range(rng: &mut StdRng, low: usize, high: usize) -> (value: usize)
    requires
        low <= high,
    ensures
        (value, rng_words(*final(rng))) == range_draw(
            rng_words(*old(rng)),
            usize::BITS,
            low,
            high,
        ),
        low <= value <= high,
{
    rng.gen_range(low..=high)
}

/// Calls `Rng::gen` for a `u64`: two words, the lower half first.
#[verifier::external_body]
pub(crate) fn draw_u64(rng: &mut StdRng) -> (value: u64)
    ensures
        value == next_u64(rng_words(*old(rng))),
        rng_words(*final(rng)) == without_u64(rng_words(*old(rng))),
{
    rng.gen::<u64>()
}

/// Calls `SliceRandom::shuffle`: a permutation of the positions that, like the words that are
/// left, is a function of the words that were there and of the positions.
#[verifier::external_body]
pub(crate) fn shuffle(positions: &mut Vec<usize>, rng: &mut StdRng)
    ensures
        (final(positions)@, rng_words(*final(rng))) == shuffle_draw(
            rng_words(*old(rng)),
            old(positions)@,
        ),
        final(positions)@.to_multiset() == old(positions)@.to_multiset(),
{
    positions.shuffle(rng)
}

/// The 64-bit number at the head of `words`.
pub open spec fn next_u64(words: Map<nat, u32>) -> u64 {
    (words[0] + words[1] * 0x1_0000_0000) as u64
}

/// `words` without the 64-bit number at their head.
pub open spec fn without_u64(words: Map<nat, u32>) -> Map<nat, u32> {
    Map::new(|i: nat| true, |i: nat| words[i + 2])
}

/// The value of `low..=high` that is drawn next, and the words that are left.
///
/// A draw is always a value of the range, so that asking whether it is changes nothing.
pub open spec fn next_in(words: Map<nat, u32>, low: usize, high: usize) -> (
    usize,
    Map<nat, u32>,
) {
    let (value, left) = range_draw(words, usize::BITS, low, high);
    if low <= value <= high {
        (value, left)
    } else {
        (low, left)
    }
}

/// The order into which `positions` are shuffled next, and the words that are left.
///
/// A shuffled list is always a permutation, so that asking whether it is changes nothing.
pub open spec fn next_order(words: Map<nat, u32>, positions: Seq<usize>) -> (
    Seq<usize>,
    Map<nat, u32>,
) {
    let (order, left) = shuffle_draw(words, positions);
    if order.to_multiset() == positions.to_multiset() {
        (order, left)
    } else {
        (positions, left)
    }
}

/// A shuffled list is a permutation.
pub proof fn law_order_is_a_permutation(words: Map<nat, u32>, positions: Seq<usize>)
    ensures
        next_order(words, positions).0.to_multiset() == positions.to_multiset(),
{
}

/// `n` values of `low..=high`, drawn one after the other, and the words that are left.
pub open spec fn next_many(words: Map<nat, u32>, low: usize, high: usize, n: nat) -> (
    Seq<usize>,
    Map<nat, u32>,
)
    decreases n,
{
    if n == 0 {
        (Seq::empty(), words)
    } else {
        let (values, rest) = next_many(words, low, high, (n - 1) as nat);
        let (value, left) = next_in(rest, low, high);
        (values.push(value), left)
    }
}

/// As many values are drawn as were asked for, and all lie in the range.
pub proof fn law_draws_lie_in_range(words: Map<nat, u32>, low: usize, high: usize, n: nat)
    ensures
        next_many(words, low, high, n).0.len() == n,
        low <= high ==> forall|i: int|
            0 <= i < n ==> low <= #[trigger] next_many(words, low, high, n).0[i] <= high,
    decreases n,
{
    if n > 0 {
        law_draws_lie_in_range(words, low, high, (n - 1) as nat);
    }
}

/// Drawing more begins with drawing less.
pub proof fn law_draws_go_on(words: Map<nat, u32>, low: usize, high: usize, n: nat, m: nat)
    requires
        n <= m,
    ensures
        next_many(words, low, high, n).0 == next_many(words, low, high, m).0.take(n as int),
    decreases m,
{
    law_draws_lie_in_range(words, low, high, m);
    let more = next_many(words, low, high, m).0;
    if n == m {
        assert(more.take(n as int) =~= more);
    } else {
        let fewer = next_many(words, low, high, (m - 1) as nat).0;
        law_draws_go_on(words, low, high, n, (m - 1) as nat);
        law_draws_lie_in_range(words, low, high, (m - 1) as nat);
        assert(more.take(n as int) =~= fewer.take(n as int));
    }
}

/// Draws `n` values of `low..=high`.
pub fn draw_many(rng: &mut StdRng, low: usize, high: usize, n: usize) -> (values: Vec<usize>)
    requires
        n > 0 ==> low <= high,
    ensures
        (values@, rng_words(*final(rng))) == next_many(rng_words(*old(rng)), low, high, n as nat),
        values@.len() == n,
        forall|i: int| 0 <= i < n ==> low <= #[trigger] values@[i] <= high,
{
    let mut values: Vec<usize> = Vec::new();
    let ghost words = rng_words(*rng);
    let mut i: usize = 0;
    while i < n
        invariant
            i <= n,
            n > 0 ==> low <= high,
            (values@, rng_words(*rng)) == next_many(words, low, high, i as nat),
            values@.len() == i,
            forall|j: int| 0 <= j < i ==> low <= #[trigger] values@[j] <= high,
        decreases n - i,
    {
        let value: usize = draw_range(rng, low, high);
        values.push(value);
        i = i + 1;
    }
    values
}

/// One row of `counts[i]` values of `low..=high` for each `i`, drawn row after row, and the words
/// that are left.
pub open spec fn next_rows(words: Map<nat, u32>, low: usize, high: usize, counts: Seq<usize>) -> (
    Seq<Seq<usize>>,
    Map<nat, u32>,
)
    decreases counts.len(),
{
    if counts.len() == 0 {
        (Seq::empty(), words)
    } else {
        let (rows, rest) = next_rows(words, low, high, counts.drop_last());
        let (row, left) = next_many(rest, low, high, counts.last() as nat);
        (rows.push(row), left)
    }
}

/// As many rows are drawn as were asked for, each as long as was asked for, and all values lie in
/// the range.
pub proof fn law_rows_lie_in_range(
    words: Map<nat, u32>,
    low: usize,
    high: usize,
    counts: Seq<usize>,
)
    ensures
        next_rows(words, low, high, counts).0.len() == counts.len(),
        forall|i: int|
            0 <= i < counts.len() ==> (#[trigger] next_rows(words, low, high, counts).0[i]).len()
                == counts[i],
        low <= high ==> forall|i: int, j: int|
            0 <= i < counts.len() && 0 <= j < counts[i] ==> low <= #[trigger] next_rows(
                words,
                low,
                high,
                counts,
            ).0[i][j] <= high,
    decreases counts.len(),
{
    if counts.len() > 0 {
        let (_, rest) = next_rows(words, low, high, counts.drop_last());
        law_rows_lie_in_range(words, low, high, counts.drop_last());
        law_draws_lie_in_range(rest, low, high, counts.last() as nat);
    }
}

/// The rows of a table as sequences.
pub open spec fn rows_view(rows: Seq<Vec<usize>>) -> Seq<Seq<usize>> {
    Seq::new(rows.len(), |i: int| rows[i]@)
}

/// Draws one row of `counts[i]` values of `low..=high` for each `i`.
pub fn draw_rows(rng: &mut StdRng, low: usize, high: usize, counts: &Vec<usize>) -> (rows: Vec<
    Vec<usize>,
>)
    requires
        forall|i: int| 0 <= i < counts@.len() && #[trigger] counts@[i] > 0 ==> low <= high,
    ensures
        (rows_view(rows@), rng_words(*final(rng))) == next_rows(
            rng_words(*old(rng)),
            low,
            high,
            counts@,
        ),
        rows@.len() == counts@.len(),
        forall|i: int|
            0 <= i < counts@.len() ==> (#[trigger] rows@[i])@.len() == counts@[i],
        forall|i: int, j: int|
            0 <= i < counts@.len() && 0 <= j < counts@[i] ==> low <= #[trigger] rows@[i]@[j]
                <= high,
{
    let mut rows: Vec<Vec<usize>> = Vec::new();
    let ghost words = rng_words(*rng);
    let mut i: usize = 0;
    assert(rows_view(rows@) =~= Seq::<Seq<usize>>::empty());
    assert(counts@.take(0) =~= Seq::<usize>::empty());
    while i < counts.len()
        invariant
            i <= counts@.len(),
            forall|k: int| 0 <= k < counts@.len() && #[trigger] counts@[k] > 0 ==> low <= high,
            (rows_view(rows@), rng_words(*rng)) == next_rows(
                words,
                low,
                high,
                counts@.take(i as int),
            ),
            rows@.len() == i,
            forall|k: int| 0 <= k < i ==> (#[trigger] rows@[k])@.len() == counts@[k],
            forall|k: int, j: int|
                0 <= k < i && 0 <= j < counts@[k] ==> low <= #[trigger] rows@[k]@[j] <= high,
        decreases counts@.len() - i,
    {
        let ghost before = rows@;
        let row: Vec<usize> = draw_many(rng, low, high, counts[i]);
        let ghost drawn = row@;
        rows.push(row);
        assert(rows_view(rows@) =~= rows_view(before).push(drawn));
        assert(counts@.take(i + 1).drop_last() =~= counts@.take(i as int));
        i = i + 1;
    }
    assert(counts@.take(counts@.len() as int) =~= counts@);
    rows
}

/// Whether the next number, read as a fraction of 2^53, lies below `threshold`.
pub open spec fn next_below(words: Map<nat, u32>, threshold: u64) -> bool {
    next_u64(words) / 2048 < threshold
}

/// `n` choices, each true where the next number lies below `threshold`, and the words that are
/// left.
pub open spec fn next_choices(words: Map<nat, u32>, threshold: u64, n: nat) -> (
    Seq<bool>,
    Map<nat, u32>,
)
    decreases n,
{
    if n == 0 {
        (Seq::empty(), words)
    } else {
        let (choices, rest) = next_choices(words, threshold, (n - 1) as nat);
        (choices.push(next_below(rest, threshold)), without_u64(rest))
    }
}

/// Draws `n` choices, each true with probability `threshold / 2^53`.
///
/// The 53 upper bits of a number are what a uniform draw from [0, 1) is made of.
pub fn draw_choices(rng: &mut StdRng, threshold: u64, n: usize) -> (choices: Vec<bool>)
    ensures
        (choices@, rng_words(*final(rng))) == next_choices(
            rng_words(*old(rng)),
            threshold,
            n as nat,
        ),
        choices@.len() == n,
{
    let mut choices: Vec<bool> = Vec::new();
    let ghost words = rng_words(*rng);
    let mut i: usize = 0;
    while i < n
        invariant
            i <= n,
            (choices@, rng_words(*rng)) == next_choices(words, threshold, i as nat),
            choices@.len() == i,
        decreases n - i,
    {
        let value: u64 = draw_u64(rng);
        choices.push(value / 2048 < threshold);
        i = i + 1;
    }
    choices
}

/// A draw from a range is the generator's own.
pub proof fn law_draws_are_the_generators(words: Map<nat, u32>, low: usize, high: usize)
    ensures
        low <= range_draw(words, usize::BITS, low, high).0 <= high ==> next_in(words, low, high)
            == range_draw(words, usize::BITS, low, high),
        next_in(words, low, high).1 == range_draw(words, usize::BITS, low, high).1,
{
}

/// A shuffled order is the generator's own.
pub proof fn law_orders_are_the_generators(words: Map<nat, u32>, positions: Seq<usize>)
    ensures
        shuffle_draw(words, positions).0.to_multiset() == positions.to_multiset() ==> next_order(
            words,
            positions,
        ) == shuffle_draw(words, positions),
        next_order(words, positions).1 == shuffle_draw(words, positions).1,
{
}

/// One more draw goes on with the words that the draws before it left.
pub proof fn law_draws_follow_each_other(words: Map<nat, u32>, low: usize, high: usize, n: nat)
    ensures
        next_many(words, low, high, 0) == (Seq::<usize>::empty(), words),
        next_many(words, low, high, n + 1) == (
            next_many(words, low, high, n).0.push(
                next_in(next_many(words, low, high, n).1, low, high).0,
            ),
            next_in(next_many(words, low, high, n).1, low, high).1,
        ),
{
}

/// One more row goes on with the words that the rows before it left.
pub proof fn law_rows_follow_each_other(
    words: Map<nat, u32>,
    low: usize,
    high: usize,
    counts: Seq<usize>,
    count: usize,
)
    ensures
        next_rows(words, low, high, Seq::empty()) == (Seq::<Seq<usize>>::empty(), words),
        next_rows(words, low, high, counts.push(count)) == (
            next_rows(words, low, high, counts).0.push(
                next_many(
                    next_rows(words, low, high, counts).1,
                    low,
                    high,
                    count as nat,
                ).0,
            ),
            next_many(next_rows(words, low, high, counts).1, low, high, count as nat).1,
        ),
{
    assert(counts.push(count).drop_last() =~= counts);
}

/// A choice reads two words, the lower half first, and goes by the upper 53 bits of the number
/// that they make. One more choice goes on with the words that the choices before it left.
pub proof fn law_choices_follow_each_other(words: Map<nat, u32>, threshold: u64, n: nat)
    ensures
        next_choices(words, threshold, 0) == (Seq::<bool>::empty(), words),
        ({
            let (choices, rest) = next_choices(words, threshold, n);
            next_choices(words, threshold, n + 1).0 == choices.push(
                (rest[0] + rest[1] * 0x1_0000_0000) / 2048 < threshold,
            )
        }),
        forall|i: nat| #[trigger]
            next_choices(words, threshold, n + 1).1[i] == next_choices(words, threshold, n).1[i
                + 2],
{
    let rest = next_choices(words, threshold, n).1;
    assert(rest[0] + rest[1] * 0x1_0000_0000 <= u64::MAX);
    assert(next_u64(rest) == rest[0] + rest[1] * 0x1_0000_0000);
    assert forall|i: nat| #[trigger]
        next_choices(words, threshold, n + 1).1[i] == rest[i + 2] by {
        assert(next_choices(words, threshold, n + 1).1 == without_u64(rest));
    }
}

/// The rows of a table are those of its lists, one by one.
pub proof fn law_rows_are_those_of_the_lists(rows: Seq<Vec<usize>>, i: int)
    requires
        0 <= i < rows.len(),
    ensures
        rows_view(rows).len() == rows.len(),
        rows_view(rows)[i] == rows[i]@,
{
}

} // verus!
