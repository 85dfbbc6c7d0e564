//! Configuration of random multi-turn conversations, and the checks on it.
use vstd::prelude::*;
use crate::datasets::draws::{LengthBounds, bounds_of, longest};
use crate::error::{BenchError, BenchErrorView};
use crate::text::{append_decimal, decimal};

verus! {

/// One, in the units of 2^-53 in which fractions are given.
pub const FRACTION_ONE: u64 = 0x20_0000_0000_0000;

/// The lengths between which turn lengths are drawn: for turn 0 and for the turns after it.
#[derive(Debug, Clone, Copy)]
pub struct TurnRange {
    pub first: LengthBounds,
    pub later: LengthBounds,
}

/// Configuration for 3-tier prefix sharing in multi-turn user messages.
#[derive(Debug, Clone, Copy)]
pub struct PrefixSharingConfig {
    /// How many of turn 0's input tokens are shared across ALL conversations.
    pub global_len: usize,
    /// How many of turn 0's input tokens are shared within each conversation.
    pub conversation_len: usize,
}

impl PrefixSharingConfig {
    /// The length of turn `t`, where `input_len` and `per_turn_len` were asked for: the shared
    /// parts are in every turn, whole.
    pub open spec fn turn_len(self, input_len: usize, per_turn_len: usize, t: int) -> int {
        let shared_len = self.global_len + self.conversation_len;
        if t > 0 {
            per_turn_len as int
        } else if input_len >= shared_len {
            input_len as int
        } else {
            shared_len
        }
    }
}

/// Configuration for generating random multi-turn conversations.
///
/// Whatever is given as a ratio of turn 0's length stands here as the lengths that it comes to.
#[derive(Debug, Clone)]
pub struct MultiTurnRandomConfig {
    pub num_conversations: usize,
    pub min_turns: usize,
    pub max_turns: usize,
    /// Shared prefix length prepended to the conversation.
    ///
    /// In normal accumulated-history mode this is added to turn 0, so all later turns inherit
    /// it through history. In no-history prefix-sharing mode it is added to every independent
    /// turn.
    pub prefix_len: usize,
    /// Input length for turn 0.
    pub input_len: usize,
    /// Input length for turns 1+. 0 = fallback to input_len.
    pub per_turn_input_len: usize,
    pub output_len: usize,
    pub seed: u64,
    pub request_id_prefix: String,
    pub prefix_sharing_config: Option<PrefixSharingConfig>,
    /// The range from which per-turn input lengths are drawn. Absent = fixed lengths.
    pub turn_range: Option<TurnRange>,
    /// Bimodal prefix-cache: fraction of conversations that are "warm" and reuse a shared cached
    /// base prefix on turn 0, in units of 2^-53, rounded up. 0 = off.
    pub cache_hit_fraction: u64,
    /// Bimodal prefix-cache: fraction of a warm conversation's turn-0 length that is the shared
    /// cached prefix, in units of 2^-53, rounded up. Used with `cache_hit_fraction`.
    pub cache_ratio: u64,
    /// The length of the shared cached base prefix: the cached part of the longest turn 0.
    pub cache_base_len: usize,
    /// The length of the cached part of a turn 0 of each length, by that length.
    pub cached_lens: Vec<usize>,
}

/// `a - b`, and 0 where that is negative.
pub open spec fn minus(a: usize, b: usize) -> usize {
    if a >= b {
        (a - b) as usize
    } else {
        0
    }
}

/// The input length of turn 0 without the special tokens.
pub open spec fn real_input_len(input_len: usize, num_special: usize) -> usize {
    minus(input_len, num_special)
}

/// The input length of the later turns without the special tokens.
pub open spec fn real_per_turn_len(
    input_len: usize,
    per_turn_input_len: usize,
    num_special: usize,
) -> usize {
    if per_turn_input_len > 0 {
        minus(per_turn_input_len, num_special)
    } else {
        minus(input_len, num_special)
    }
}

/// The input lengths of turn 0 and of the later turns, without the special tokens.
pub fn real_lens(input_len: usize, per_turn_input_len: usize, num_special: usize) -> (lens: (
    usize,
    usize,
))
    ensures
        lens.0 == real_input_len(input_len, num_special),
        lens.1 == real_per_turn_len(input_len, per_turn_input_len, num_special),
{
    let first: usize = input_len.saturating_sub(num_special);
    let later: usize = if per_turn_input_len > 0 {
        per_turn_input_len.saturating_sub(num_special)
    } else {
        first
    };
    (first, later)
}

/// The complaint about a turn 0 that is all special tokens.
pub open spec fn input_len_complaint(num_special: nat) -> Seq<char> {
    "--random-input-len too small: with "@ + decimal(num_special)
        + " special tokens, effective input length is 0"@
}

/// The complaint about later turns that are all special tokens.
pub open spec fn per_turn_len_complaint(num_special: nat) -> Seq<char> {
    "--per-turn-input-len too small: with "@ + decimal(num_special)
        + " special tokens, effective per-turn input length is 0"@
}

/// The input lengths of turn 0 and of the later turns, without the special tokens.
pub open spec fn checked_lens(
    input_len: usize,
    per_turn_input_len: usize,
    num_special: usize,
) -> Result<(usize, usize), BenchErrorView> {
    if real_input_len(input_len, num_special) < 1 {
        Err(BenchErrorView::Config(input_len_complaint(num_special as nat)))
    } else if real_per_turn_len(input_len, per_turn_input_len, num_special) < 1 {
        Err(BenchErrorView::Config(per_turn_len_complaint(num_special as nat)))
    } else {
        Ok(
            (
                real_input_len(input_len, num_special),
                real_per_turn_len(input_len, per_turn_input_len, num_special),
            ),
        )
    }
}

/// A complaint that names the number of special tokens.
fn special_tokens_complaint(before: &str, num_special: usize, after: &str) -> (error: BenchError)
    ensures
        error@ == BenchErrorView::Config(before@ + decimal(num_special as nat) + after@),
{
    let mut text: String = before.to_string();
    append_decimal(&mut text, num_special as u64);
    text.append(after);
    BenchError::Config(text)
}

/// The outcome of [`check_input_lens`], by value.
pub open spec fn lens_result(result: Result<(usize, usize), BenchError>) -> Result<
    (usize, usize),
    BenchErrorView,
> {
    match result {
        Ok(lens) => Ok(lens),
        Err(error) => Err(error@),
    }
}

/// The input lengths of turn 0 and of the later turns, without the special tokens, each of
/// which must leave at least one token.
pub fn check_input_lens(
    input_len: usize,
    per_turn_input_len: usize,
    num_special: usize,
) -> (result: Result<(usize, usize), BenchError>)
    ensures
        lens_result(result) == checked_lens(input_len, per_turn_input_len, num_special),
{
    let (first, later) = real_lens(input_len, per_turn_input_len, num_special);
    if first < 1 {
        return Err(
            special_tokens_complaint(
                "--random-input-len too small: with ",
                num_special,
                " special tokens, effective input length is 0",
            ),
        );
    }
    if later < 1 {
        return Err(
            special_tokens_complaint(
                "--per-turn-input-len too small: with ",
                num_special,
                " special tokens, effective per-turn input length is 0",
            ),
        );
    }
    Ok((first, later))
}

/// The outcome of the checks that come before anything is drawn: the input lengths of turn 0 and
/// of the later turns.
pub open spec fn checked_setup(
    allowed_tokens: Seq<u32>,
    num_special: usize,
    cfg: &MultiTurnRandomConfig,
) -> Result<(usize, usize), BenchErrorView> {
    if allowed_tokens.len() == 0 {
        Err(BenchErrorView::Tokenizer("No allowed tokens found"@))
    } else {
        checked_lens(cfg.input_len, cfg.per_turn_input_len, num_special)
    }
}

/// Makes the checks that come before anything is drawn.
pub fn check_setup(
    allowed_tokens: &[u32],
    num_special: usize,
    cfg: &MultiTurnRandomConfig,
) -> (result: Result<(usize, usize), BenchError>)
    ensures
        lens_result(result) == checked_setup(allowed_tokens@, num_special, cfg),
{
    if allowed_tokens.len() == 0 {
        return Err(BenchError::Tokenizer("No allowed tokens found".to_string()));
    }
    check_input_lens(cfg.input_len, cfg.per_turn_input_len, num_special)
}

impl MultiTurnRandomConfig {
    /// The prefix cache is on.
    pub open spec fn is_bimodal(&self) -> bool {
        self.cache_hit_fraction > 0 && self.cache_ratio > 0
    }

    /// The prefix cache is on, with a fraction above one.
    pub open spec fn cache_refused(&self) -> bool {
        self.is_bimodal() && (self.cache_hit_fraction > FRACTION_ONE || self.cache_ratio
            > FRACTION_ONE)
    }

    /// The length of the shared prefix that goes before turn `t` in accumulated-history mode.
    pub open spec fn turn_prefix_len(&self, t: int) -> usize {
        if t == 0 && !self.is_bimodal() {
            self.prefix_len
        } else {
            0
        }
    }

    /// No conversation has a turn.
    pub open spec fn has_no_turns(&self) -> bool {
        self.num_conversations == 0 || self.max_turns == 0
    }

    /// The longest that turn 0 can be, where `input_len` is its fixed length.
    pub open spec fn longest_first(&self, input_len: usize) -> usize {
        match self.turn_range {
            Some(range) => longest(range.first),
            None => input_len,
        }
    }

    /// The longest that a later turn can be, where `per_turn_len` is its fixed length.
    pub open spec fn longest_later(&self, per_turn_len: usize) -> usize {
        match self.turn_range {
            Some(range) => longest(range.later),
            None => per_turn_len,
        }
    }

    /// `len` is a right length for turn `t` in accumulated-history mode, where `input_len` and
    /// `per_turn_len` were asked for.
    pub open spec fn is_turn_len(
        &self,
        input_len: usize,
        per_turn_len: usize,
        t: int,
        len: usize,
    ) -> bool {
        match self.turn_range {
            Some(range) => {
                let bounds = bounds_of(range.first, range.later, t);
                bounds.low <= len <= longest(bounds)
            },
            None => len == if t == 0 {
                input_len
            } else {
                per_turn_len
            },
        }
    }

    /// Turn counts and offsets can be drawn, and turns of at most `len` tokens stay within
    /// machine limits.
    pub open spec fn drawable(&self, vocab_size: u32, len: usize) -> bool {
        &&& self.num_conversations > 0 ==> self.min_turns <= self.max_turns
        &&& self.num_conversations > 0 && self.max_turns > 0 ==> vocab_size > 0
        &&& len <= usize::MAX / 2
        &&& vocab_size + self.num_conversations * self.max_turns + len <= usize::MAX
    }

    /// Random conversations can be drawn, the table of cached lengths covers every turn 0, and
    /// machine limits are kept, where `input_len` and `per_turn_len` were asked for.
    pub open spec fn plannable(
        &self,
        vocab_size: u32,
        input_len: usize,
        per_turn_len: usize,
    ) -> bool {
        &&& self.drawable(vocab_size, self.longest_first(input_len))
        &&& self.drawable(vocab_size, self.longest_later(per_turn_len))
        &&& self.is_bimodal() ==> self.cache_base_len <= usize::MAX / 2 && self.longest_first(
            input_len,
        ) < self.cached_lens@.len()
        &&& !self.is_bimodal() ==> self.prefix_len <= usize::MAX / 2
    }

    /// Whether turn counts and offsets can be drawn, and turns of at most `len` tokens stay
    /// within machine limits.
    pub fn can_draw(&self, vocab_size: u32, len: usize) -> (can: bool)
        ensures
            can == self.drawable(vocab_size, len),
    {
        let from_something: bool = self.num_conversations == 0 || (self.min_turns <= self.max_turns
            && (self.max_turns == 0 || vocab_size > 0));
        if !from_something || len > usize::MAX / 2 {
            return false;
        }
        match self.num_conversations.checked_mul(self.max_turns) {
            Some(places) => match places.checked_add(vocab_size as usize) {
                Some(sum) => len <= usize::MAX - sum,
                None => false,
            },
            None => false,
        }
    }

    /// Whether the prefix cache is on.
    pub fn has_cache(&self) -> (on: bool)
        ensures
            on == self.is_bimodal(),
    {
        self.cache_hit_fraction > 0 && self.cache_ratio > 0
    }

    /// Whether the prefix cache is on, with a fraction above one.
    pub fn refuses_cache(&self) -> (refused: bool)
        ensures
            refused == self.cache_refused(),
    {
        self.has_cache() && (self.cache_hit_fraction > FRACTION_ONE || self.cache_ratio
            > FRACTION_ONE)
    }

    /// The longest that turn 0 and the later turns can be, where `input_len` and `per_turn_len`
    /// are their fixed lengths.
    pub fn longest_turns(&self, input_len: usize, per_turn_len: usize) -> (lens: (usize, usize))
        ensures
            lens == (self.longest_first(input_len), self.longest_later(per_turn_len)),
    {
        match &self.turn_range {
            Some(range) => (range.first.upper(), range.later.upper()),
            None => (input_len, per_turn_len),
        }
    }
}

/// The checks go by the allowed tokens, then by turn 0, then by the later turns. What passes them
/// has the lengths that were asked for less the special tokens.
pub proof fn law_checks_ask_for_tokens_and_room(
    allowed_tokens: Seq<u32>,
    num_special: usize,
    cfg: &MultiTurnRandomConfig,
)
    ensures
        ({
            let later = if cfg.per_turn_input_len > 0 {
                cfg.per_turn_input_len
            } else {
                cfg.input_len
            };
            let result = checked_setup(allowed_tokens, num_special, cfg);
            if allowed_tokens.len() == 0 {
                result == Err::<(usize, usize), BenchErrorView>(
                    BenchErrorView::Tokenizer("No allowed tokens found"@),
                )
            } else if cfg.input_len <= num_special {
                result == Err::<(usize, usize), BenchErrorView>(
                    BenchErrorView::Config(
                        "--random-input-len too small: with "@ + decimal(num_special as nat)
                            + " special tokens, effective input length is 0"@,
                    ),
                )
            } else if later <= num_special {
                result == Err::<(usize, usize), BenchErrorView>(
                    BenchErrorView::Config(
                        "--per-turn-input-len too small: with "@ + decimal(num_special as nat)
                            + " special tokens, effective per-turn input length is 0"@,
                    ),
                )
            } else {
                result matches Ok((first_len, later_len)) && first_len + num_special
                    == cfg.input_len && later_len + num_special == later
            }
        }),
{
}

/// Effective lengths are what the special tokens leave, down to nothing.
pub proof fn law_special_tokens_are_taken_off(
    input_len: usize,
    per_turn_input_len: usize,
    num_special: usize,
)
    ensures
        input_len >= num_special ==> real_input_len(input_len, num_special) == input_len
            - num_special,
        input_len < num_special ==> real_input_len(input_len, num_special) == 0,
        per_turn_input_len == 0 ==> real_per_turn_len(input_len, per_turn_input_len, num_special)
            == real_input_len(input_len, num_special),
        per_turn_input_len > 0 ==> real_per_turn_len(input_len, per_turn_input_len, num_special)
            == real_input_len(per_turn_input_len, num_special),
{
}

/// The prefix cache is on where both fractions are above zero, and refused where one of them is
/// then above one.
pub proof fn law_cache_goes_by_its_fractions(cfg: &MultiTurnRandomConfig)
    ensures
        cfg.is_bimodal() <==> cfg.cache_hit_fraction > 0 && cfg.cache_ratio > 0,
        cfg.cache_refused() <==> cfg.cache_hit_fraction > 0 && cfg.cache_ratio > 0 && (
        cfg.cache_hit_fraction > 9007199254740992 || cfg.cache_ratio > 9007199254740992),
{
}

/// Whatever has something to draw from and stays far from machine limits can be drawn.
pub proof fn law_ordinary_configurations_can_be_drawn(
    cfg: &MultiTurnRandomConfig,
    vocab_size: u32,
    len: usize,
)
    requires
        cfg.min_turns <= cfg.max_turns || cfg.num_conversations == 0,
        vocab_size > 0 || cfg.num_conversations == 0 || cfg.max_turns == 0,
        len <= usize::MAX / 2,
        vocab_size + cfg.num_conversations * cfg.max_turns + len <= usize::MAX,
    ensures
        cfg.drawable(vocab_size, len),
{
}

/// Whatever can be drawn, with a table of cached lengths that is long enough, can be planned.
pub proof fn law_ordinary_configurations_can_be_planned(
    cfg: &MultiTurnRandomConfig,
    vocab_size: u32,
    input_len: usize,
    per_turn_len: usize,
)
    requires
        cfg.prefix_len <= usize::MAX / 2,
        cfg.cache_base_len <= usize::MAX / 2,
        match cfg.turn_range {
            Some(range) => {
                &&& cfg.drawable(vocab_size, range.first.low)
                &&& cfg.drawable(vocab_size, range.first.high)
                &&& cfg.drawable(vocab_size, range.later.low)
                &&& cfg.drawable(vocab_size, range.later.high)
                &&& range.first.low < cfg.cached_lens@.len()
                &&& range.first.high < cfg.cached_lens@.len()
            },
            None => {
                &&& cfg.drawable(vocab_size, input_len)
                &&& cfg.drawable(vocab_size, per_turn_len)
                &&& input_len < cfg.cached_lens@.len()
            },
        },
    ensures
        cfg.plannable(vocab_size, input_len, per_turn_len),
{
}

} // verus!
