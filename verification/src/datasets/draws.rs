//! What is drawn at random for a dataset: turn counts, tokens and turn lengths.
use vstd::prelude::*;
use rand::rngs::StdRng;
use crate::rng::{
    draw_many, draw_range, law_draws_go_on, law_draws_lie_in_range, next_in, next_many, rng_words,
    rows_view,
};

verus! {

/// The turn counts of `n` conversations: drawn only where there is a choice.
pub open spec fn turn_counts(words: Map<nat, u32>, min: usize, max: usize, n: nat) -> (
    Seq<usize>,
    Map<nat, u32>,
) {
    if min == max {
        (Seq::new(n, |i: int| min), words)
    } else {
        next_many(words, min, max, n)
    }
}

/// Draws the turn counts of `n` conversations.
pub fn draw_turn_counts(rng: &mut StdRng, min: usize, max: usize, n: usize) -> (counts: Vec<usize>)
    requires
        n > 0 ==> min <= max,
    ensures
        (counts@, rng_words(*final(rng))) == turn_counts(rng_words(*old(rng)), min, max, n as nat),
        counts@.len() == n,
        forall|i: int| 0 <= i < n ==> min <= #[trigger] counts@[i] <= max,
{
    if min == max {
        let counts: Vec<usize> = vec![min; n];
        assert(counts@ =~= Seq::new(n as nat, |i: int| min));
        counts
    } else {
        draw_many(rng, min, max, n)
    }
}

/// The last index of a list of `n` items, and 0 for an empty list.
pub open spec fn last_index(n: nat) -> usize {
    if n == 0 {
        0
    } else {
        (n - 1) as usize
    }
}

/// `n` allowed tokens, drawn one after the other.
pub open spec fn drawn_tokens(words: Map<nat, u32>, allowed_tokens: Seq<u32>, n: nat) -> Seq<
    u32,
> {
    next_many(words, 0, last_index(allowed_tokens.len()), n).0.map_values(
        |i: usize| allowed_tokens[i as int],
    )
}

/// As many tokens are drawn as were asked for, and all are allowed.
pub proof fn law_drawn_tokens_are_allowed(
    words: Map<nat, u32>,
    allowed_tokens: Seq<u32>,
    n: nat,
)
    requires
        0 < allowed_tokens.len() <= usize::MAX,
    ensures
        drawn_tokens(words, allowed_tokens, n).len() == n,
        forall|i: int|
            0 <= i < n ==> allowed_tokens.contains(
                #[trigger] drawn_tokens(words, allowed_tokens, n)[i],
            ),
{
    let last = last_index(allowed_tokens.len());
    law_draws_lie_in_range(words, 0, last, n);
    assert forall|i: int| 0 <= i < n implies allowed_tokens.contains(
        #[trigger] drawn_tokens(words, allowed_tokens, n)[i],
    ) by {
        let at = next_many(words, 0, last, n).0[i];
        assert(allowed_tokens[at as int] == drawn_tokens(words, allowed_tokens, n)[i]);
    }
}

/// Drawing more tokens begins with drawing fewer.
pub proof fn law_drawn_tokens_go_on(
    words: Map<nat, u32>,
    allowed_tokens: Seq<u32>,
    n: nat,
    m: nat,
)
    requires
        n <= m,
    ensures
        drawn_tokens(words, allowed_tokens, n) == drawn_tokens(words, allowed_tokens, m).take(
            n as int,
        ),
{
    let last = last_index(allowed_tokens.len());
    law_draws_go_on(words, 0, last, n, m);
    law_draws_lie_in_range(words, 0, last, m);
    assert(drawn_tokens(words, allowed_tokens, n) =~= drawn_tokens(
        words,
        allowed_tokens,
        m,
    ).take(n as int));
}

/// Where one token is allowed, it is drawn every time.
pub proof fn law_one_allowed_token_is_drawn(words: Map<nat, u32>, token: u32, n: nat)
    ensures
        drawn_tokens(words, seq![token], n) == Seq::new(n, |i: int| token),
{
    law_draws_lie_in_range(words, 0, 0, n);
    assert(drawn_tokens(words, seq![token], n) =~= Seq::new(n, |i: int| token));
}

/// Draws `n` allowed tokens.
pub fn draw_tokens(rng: &mut StdRng, allowed_tokens: &[u32], n: usize) -> (tokens: Vec<u32>)
    requires
        allowed_tokens@.len() > 0,
    ensures
        tokens@ == drawn_tokens(rng_words(*old(rng)), allowed_tokens@, n as nat),
        tokens@.len() == n,
        forall|i: int| 0 <= i < n ==> allowed_tokens@.contains(#[trigger] tokens@[i]),
        rng_words(*final(rng)) == next_many(
            rng_words(*old(rng)),
            0,
            last_index(allowed_tokens@.len()),
            n as nat,
        ).1,
{
    let ghost words = rng_words(*rng);
    let indices: Vec<usize> = draw_many(rng, 0, allowed_tokens.len() - 1, n);
    let mut tokens: Vec<u32> = Vec::new();
    let mut i: usize = 0;
    while i < n
        invariant
            i <= n,
            indices@.len() == n,
            forall|j: int| 0 <= j < n ==> 0 <= #[trigger] indices@[j] < allowed_tokens@.len(),
            tokens@ == indices@.take(i as int).map_values(|k: usize| allowed_tokens@[k as int]),
        decreases n - i,
    {
        tokens.push(allowed_tokens[indices[i]]);
        i = i + 1;
        assert(tokens@ =~= indices@.take(i as int).map_values(
            |k: usize| allowed_tokens@[k as int],
        ));
    }
    assert(indices@.take(n as int) =~= indices@);
    assert forall|i: int| 0 <= i < n implies allowed_tokens@.contains(#[trigger] tokens@[i]) by {
        assert(allowed_tokens@[indices@[i] as int] == tokens@[i]);
    }
    tokens
}

/// The lengths between which a turn's input length is drawn, both included.
#[derive(Debug, Clone, Copy)]
pub struct LengthBounds {
    pub low: usize,
    pub high: usize,
}

/// The bounds of turn `t`: the first turn has its own.
pub open spec fn bounds_of(first: LengthBounds, later: LengthBounds, t: int) -> LengthBounds {
    if t == 0 {
        first
    } else {
        later
    }
}

/// The largest length that `bounds` allow.
pub open spec fn longest(bounds: LengthBounds) -> usize {
    if bounds.low >= bounds.high {
        bounds.low
    } else {
        bounds.high
    }
}

impl LengthBounds {
    /// The largest length that the bounds allow.
    pub fn upper(&self) -> (len: usize)
        ensures
            len == longest(*self),
    {
        if self.low >= self.high {
            self.low
        } else {
            self.high
        }
    }
}

/// A length within `bounds`, drawn only where there is a choice, and the words that are left.
pub open spec fn next_len(words: Map<nat, u32>, bounds: LengthBounds) -> (usize, Map<nat, u32>) {
    if bounds.low >= bounds.high {
        (bounds.low, words)
    } else {
        next_in(words, bounds.low, bounds.high)
    }
}

/// The lengths of the `n` turns of a conversation, and the words that are left.
pub open spec fn next_lens(
    words: Map<nat, u32>,
    first: LengthBounds,
    later: LengthBounds,
    n: nat,
) -> (Seq<usize>, Map<nat, u32>)
    decreases n,
{
    if n == 0 {
        (Seq::empty(), words)
    } else {
        let (lens, rest) = next_lens(words, first, later, (n - 1) as nat);
        let (len, left) = next_len(rest, bounds_of(first, later, n - 1));
        (lens.push(len), left)
    }
}

/// Every turn has a length, and it lies within the bounds.
pub proof fn law_lens_lie_within_bounds(
    words: Map<nat, u32>,
    first: LengthBounds,
    later: LengthBounds,
    n: nat,
)
    ensures
        next_lens(words, first, later, n).0.len() == n,
        forall|t: int|
            0 <= t < n ==> bounds_of(first, later, t).low <= #[trigger] next_lens(
                words,
                first,
                later,
                n,
            ).0[t] <= longest(bounds_of(first, later, t)),
    decreases n,
{
    if n > 0 {
        law_lens_lie_within_bounds(words, first, later, (n - 1) as nat);
    }
}

/// Draws the lengths of the `n` turns of a conversation.
pub fn draw_lens(rng: &mut StdRng, first: LengthBounds, later: LengthBounds, n: usize) -> (lens:
    Vec<usize>)
    ensures
        (lens@, rng_words(*final(rng))) == next_lens(
            rng_words(*old(rng)),
            first,
            later,
            n as nat,
        ),
        lens@.len() == n,
        forall|t: int|
            0 <= t < n ==> bounds_of(first, later, t).low <= #[trigger] lens@[t] <= longest(
                bounds_of(first, later, t),
            ),
{
    let mut lens: Vec<usize> = Vec::new();
    let ghost words = rng_words(*rng);
    let mut t: usize = 0;
    while t < n
        invariant
            t <= n,
            (lens@, rng_words(*rng)) == next_lens(words, first, later, t as nat),
            lens@.len() == t,
            forall|k: int|
                0 <= k < t ==> bounds_of(first, later, k).low <= #[trigger] lens@[k] <= longest(
                    bounds_of(first, later, k),
                ),
        decreases n - t,
    {
        let bounds: LengthBounds = if t == 0 {
            first
        } else {
            later
        };
        let len: usize = if bounds.low >= bounds.high {
            bounds.low
        } else {
            draw_range(rng, bounds.low, bounds.high)
        };
        lens.push(len);
        t = t + 1;
    }
    lens
}

/// The turn lengths of conversations with `counts[i]` turns, and the words that are left.
pub open spec fn next_len_rows(
    words: Map<nat, u32>,
    first: LengthBounds,
    later: LengthBounds,
    counts: Seq<usize>,
) -> (Seq<Seq<usize>>, Map<nat, u32>)
    decreases counts.len(),
{
    if counts.len() == 0 {
        (Seq::empty(), words)
    } else {
        let (rows, rest) = next_len_rows(words, first, later, counts.drop_last());
        let (row, left) = next_lens(rest, first, later, counts.last() as nat);
        (rows.push(row), left)
    }
}

/// Every turn of every conversation has a length, and it lies within the bounds.
pub proof fn law_len_rows_lie_within_bounds(
    words: Map<nat, u32>,
    first: LengthBounds,
    later: LengthBounds,
    counts: Seq<usize>,
)
    ensures
        next_len_rows(words, first, later, counts).0.len() == counts.len(),
        forall|i: int|
            0 <= i < counts.len() ==> (#[trigger] next_len_rows(
                words,
                first,
                later,
                counts,
            ).0[i]).len() == counts[i],
        forall|i: int, t: int|
            0 <= i < counts.len() && 0 <= t < counts[i] ==> bounds_of(first, later, t).low
                <= #[trigger] next_len_rows(words, first, later, counts).0[i][t] <= longest(
                bounds_of(first, later, t),
            ),
    decreases counts.len(),
{
    if counts.len() > 0 {
        let (_, rest) = next_len_rows(words, first, later, counts.drop_last());
        law_len_rows_lie_within_bounds(words, first, later, counts.drop_last());
        law_lens_lie_within_bounds(rest, first, later, counts.last() as nat);
    }
}

/// Draws the turn lengths of conversations with `counts[i]` turns.
pub fn draw_len_rows(
    rng: &mut StdRng,
    first: LengthBounds,
    later: LengthBounds,
    counts: &Vec<usize>,
) -> (rows: Vec<Vec<usize>>)
    ensures
        (rows_view(rows@), rng_words(*final(rng))) == next_len_rows(
            rng_words(*old(rng)),
            first,
            later,
            counts@,
        ),
        rows@.len() == counts@.len(),
        forall|i: int| 0 <= i < counts@.len() ==> (#[trigger] rows@[i])@.len() == counts@[i],
        forall|i: int, t: int|
            0 <= i < counts@.len() && 0 <= t < counts@[i] ==> bounds_of(first, later, t).low
                <= #[trigger] rows@[i]@[t] <= longest(bounds_of(first, later, t)),
{
    let mut rows: Vec<Vec<usize>> = Vec::new();
    let ghost words = rng_words(*rng);
    let mut i: usize = 0;
    assert(rows_view(rows@) =~= Seq::<Seq<usize>>::empty());
    assert(counts@.take(0) =~= Seq::<usize>::empty());
    while i < counts.len()
        invariant
            i <= counts@.len(),
            (rows_view(rows@), rng_words(*rng)) == next_len_rows(
                words,
                first,
                later,
                counts@.take(i as int),
            ),
            rows@.len() == i,
            forall|k: int| 0 <= k < i ==> (#[trigger] rows@[k])@.len() == counts@[k],
            forall|k: int, t: int|
                0 <= k < i && 0 <= t < counts@[k] ==> bounds_of(first, later, t).low
                    <= #[trigger] rows@[k]@[t] <= longest(bounds_of(first, later, t)),
        decreases counts@.len() - i,
    {
        let ghost before = rows@;
        let row: Vec<usize> = draw_lens(rng, first, later, counts[i]);
        let ghost drawn = row@;
        rows.push(row);
        assert(rows_view(rows@) =~= rows_view(before).push(drawn));
        assert(counts@.take(i + 1).drop_last() =~= counts@.take(i as int));
        i = i + 1;
    }
    assert(counts@.take(counts@.len() as int) =~= counts@);
    rows
}

/// Turn counts are drawn one after the other where there is a choice, and else not at all.
pub proof fn law_turn_counts_are_draws(words: Map<nat, u32>, min: usize, max: usize, n: nat)
    ensures
        min != max ==> turn_counts(words, min, max, n) == next_many(words, min, max, n),
        min == max ==> turn_counts(words, min, max, n).1 == words && turn_counts(
            words,
            min,
            max,
            n,
        ).0.len() == n && forall|i: int|
            0 <= i < n ==> #[trigger] turn_counts(words, min, max, n).0[i] == min,
{
}

/// A drawn token is the allowed token at a drawn index.
pub proof fn law_drawn_tokens_stand_at_drawn_indices(
    words: Map<nat, u32>,
    allowed_tokens: Seq<u32>,
    n: nat,
    i: int,
)
    requires
        0 < allowed_tokens.len() <= usize::MAX,
        0 <= i < n,
    ensures
        drawn_tokens(words, allowed_tokens, n)[i] == allowed_tokens[next_many(
            words,
            0,
            (allowed_tokens.len() - 1) as usize,
            n,
        ).0[i] as int],
{
    law_draws_lie_in_range(words, 0, (allowed_tokens.len() - 1) as usize, n);
}

/// Turn lengths follow each other: the first turn has its own bounds, and where the bounds leave
/// no choice the lower one is taken and nothing is drawn.
pub proof fn law_lens_follow_each_other(
    words: Map<nat, u32>,
    first: LengthBounds,
    later: LengthBounds,
    n: nat,
)
    ensures
        next_lens(words, first, later, 0) == (Seq::<usize>::empty(), words),
        ({
            let bounds = if n == 0 {
                first
            } else {
                later
            };
            let (lens, rest) = next_lens(words, first, later, n);
            let (len, left) = if bounds.low < bounds.high {
                next_in(rest, bounds.low, bounds.high)
            } else {
                (bounds.low, rest)
            };
            next_lens(words, first, later, n + 1) == (lens.push(len), left)
        }),
{
}

/// The turn lengths of one more conversation go on with the words that those before it left.
pub proof fn law_len_rows_follow_each_other(
    words: Map<nat, u32>,
    first: LengthBounds,
    later: LengthBounds,
    counts: Seq<usize>,
    count: usize,
)
    ensures
        next_len_rows(words, first, later, Seq::empty()) == (Seq::<Seq<usize>>::empty(), words),
        ({
            let (rows, rest) = next_len_rows(words, first, later, counts);
            let (row, left) = next_lens(rest, first, later, count as nat);
            next_len_rows(words, first, later, counts.push(count)) == (rows.push(row), left)
        }),
{
    assert(counts.push(count).drop_last() =~= counts);
}

} // verus!
