//! What the turns of generated conversations are made of, token by token.
use vstd::prelude::*;
use crate::datasets::config::{MultiTurnRandomConfig, PrefixSharingConfig, checked_setup};
use crate::datasets::draws::{drawn_tokens, next_len_rows};
use crate::datasets::laws::{
    law_different_starts_give_different_texts, law_generated_prefix_turns, law_generated_turns,
    law_turn_counts_lie_within_bounds, law_turns_share_prefixes,
};
use crate::datasets::multi_turn::{generated, refusal};
use crate::datasets::parts::{shared_prefix_of, suffix_of};
use crate::datasets::prefix_sharing::{
    PrefixPlanView, checked_prefix_lens, conv_texts_of, prefix_conversation_of, prefix_draws,
    prefix_generated, prefix_plan_of, prefix_turn_of, text_part,
};
use crate::datasets::prompt::{
    law_prompt_errors_are_the_tokenizers, law_prompt_is_not_too_long, law_stable_tokens_are_kept,
    prompt_of, token_seq,
};
use crate::datasets::random_turns::{PlanView, base_of, conversation_of, plan_of, turn_of};
use crate::datasets::{ConversationView, TurnView};
use crate::error::{
    BenchErrorView, law_collected_errors_are_values, law_collected_gives_the_first_error,
    law_collected_keeps_order, law_collected_succeeds,
};
use crate::rng::{
    law_draws_lie_in_range, law_rows_lie_in_range, next_choices, next_in, next_many, next_rows,
    seeded_words,
};
use crate::text::decimal;
use crate::tokenizer::TokenizerModel;

verus! {

/// Conversations are numbered from 0, have as many turns as were asked for or drawn, and every
/// turn has the output length that was asked for.
pub proof fn law_generated_shape(
    tokenizer: TokenizerModel,
    cfg: &MultiTurnRandomConfig,
    conversations: Seq<ConversationView>,
    c: int,
    t: int,
)
    requires
        cfg.prefix_sharing_config is None,
        generated(tokenizer, cfg) == Ok::<Seq<ConversationView>, BenchErrorView>(conversations),
        0 <= c < cfg.num_conversations,
    ensures
        conversations.len() == cfg.num_conversations,
        conversations[c].conversation_id == cfg.request_id_prefix@ + "conv-"@ + decimal(c as nat),
        cfg.min_turns == cfg.max_turns ==> conversations[c].turns.len() == cfg.min_turns,
        cfg.min_turns != cfg.max_turns ==> conversations[c].turns.len() == next_many(
            seeded_words(cfg.seed),
            cfg.min_turns,
            cfg.max_turns,
            cfg.num_conversations as nat,
        ).0[c],
        0 <= t < conversations[c].turns.len() ==> conversations[c].turns[t].expected_output_len
            == cfg.output_len,
{
    let plan = plan_of(tokenizer, cfg)->Ok_0;
    lemma_plan_rows(tokenizer, cfg, plan);
    let all = |i: int| conversation_of(tokenizer, plan, i);
    law_collected_keeps_order(all, plan.offsets.len());
    assert(all(c) == Ok::<ConversationView, BenchErrorView>(conversations[c]));
    law_collected_keeps_order(|i: int| turn_of(tokenizer, plan, c, i), plan.offsets[c].len());
    if 0 <= t < conversations[c].turns.len() {
        law_generated_turns(tokenizer, cfg, plan, conversations, c, t);
    }
}

/// A plan has a row of offsets for each conversation, as long as it has turns.
proof fn lemma_plan_rows(tokenizer: TokenizerModel, cfg: &MultiTurnRandomConfig, plan: PlanView)
    requires
        plan_of(tokenizer, cfg) == Ok::<PlanView, BenchErrorView>(plan),
    ensures
        plan.offsets.len() == cfg.num_conversations,
        cfg.min_turns == cfg.max_turns ==> plan.offsets == next_rows(
            seeded_words(cfg.seed),
            0,
            if tokenizer.vocab_size > 0 {
                (tokenizer.vocab_size - 1) as usize
            } else {
                0
            },
            Seq::new(cfg.num_conversations as nat, |i: int| cfg.min_turns),
        ).0,
        cfg.min_turns == cfg.max_turns ==> forall|c: int|
            0 <= c < cfg.num_conversations ==> (#[trigger] plan.offsets[c]).len()
                == cfg.min_turns,
        cfg.min_turns != cfg.max_turns ==> ({
            let (counts, rest) = next_many(
                seeded_words(cfg.seed),
                cfg.min_turns,
                cfg.max_turns,
                cfg.num_conversations as nat,
            );
            &&& plan.offsets == next_rows(
                rest,
                0,
                if tokenizer.vocab_size > 0 {
                    (tokenizer.vocab_size - 1) as usize
                } else {
                    0
                },
                counts,
            ).0
            &&& counts.len() == cfg.num_conversations
        }),
        cfg.min_turns != cfg.max_turns ==> forall|c: int|
            0 <= c < cfg.num_conversations ==> (#[trigger] plan.offsets[c]).len() == next_many(
                seeded_words(cfg.seed),
                cfg.min_turns,
                cfg.max_turns,
                cfg.num_conversations as nat,
            ).0[c],
{
    let n = cfg.num_conversations as nat;
    let words = seeded_words(cfg.seed);
    let last = if tokenizer.vocab_size > 0 {
        (tokenizer.vocab_size - 1) as usize
    } else {
        0
    };
    law_turn_counts_lie_within_bounds(words, cfg.min_turns, cfg.max_turns, n);
    law_draws_lie_in_range(words, cfg.min_turns, cfg.max_turns, n);
    let (drawn, rest) = next_many(words, cfg.min_turns, cfg.max_turns, n);
    law_rows_lie_in_range(rest, 0, last, drawn);
    law_rows_lie_in_range(words, 0, last, Seq::new(n, |i: int| cfg.min_turns));
}

/// A turn without a cached part and without a shared prefix is the prompt of its own tokens: the
/// allowed tokens one after the other, from the drawn offset on, moved by the number of turns
/// that may come before it. As many as the turn is to have: what was asked for, or drawn.
///
/// Before turn 0 goes the shared prefix, where one was asked for and the prefix cache is off, or,
/// in a warm conversation, as many tokens of the base prefix as the table lists for the turn's
/// length, but no more than the base prefix or the turn has; the turn's own tokens are then so
/// many fewer. With something before it, the whole message is encoded to count it.
pub proof fn law_generated_messages(
    tokenizer: TokenizerModel,
    cfg: &MultiTurnRandomConfig,
    conversations: Seq<ConversationView>,
    c: int,
    t: int,
    counts: Seq<usize>,
    rest: Map<nat, u32>,
    input_len: usize,
    per_turn_len: usize,
)
    requires
        cfg.prefix_sharing_config is None,
        tokenizer.vocab_size > 0,
        generated(tokenizer, cfg) == Ok::<Seq<ConversationView>, BenchErrorView>(conversations),
        0 <= c < cfg.num_conversations,
        0 <= t < conversations[c].turns.len(),
        cfg.min_turns == cfg.max_turns ==> (counts, rest) == (
            Seq::new(cfg.num_conversations as nat, |i: int| cfg.min_turns),
            seeded_words(cfg.seed),
        ),
        cfg.min_turns != cfg.max_turns ==> (counts, rest) == next_many(
            seeded_words(cfg.seed),
            cfg.min_turns,
            cfg.max_turns,
            cfg.num_conversations as nat,
        ),
        checked_setup(tokenizer.allowed_tokens, tokenizer.num_special_tokens, cfg) == Ok::<
            (usize, usize),
            BenchErrorView,
        >((input_len, per_turn_len)),
        cfg.cache_base_len <= usize::MAX / 2,
    ensures
        ({
            let allowed = tokenizer.allowed_tokens;
            let cache = cfg.cache_hit_fraction > 0 && cfg.cache_ratio > 0;
            let offset = next_rows(rest, 0, (tokenizer.vocab_size - 1) as usize, counts).0[c][t];
            let start = offset + c * cfg.max_turns + t;
            let target: int = match cfg.turn_range {
                Some(range) => next_len_rows(
                    seeded_words(cfg.seed.wrapping_add(0xBEEF)),
                    range.first,
                    range.later,
                    counts,
                ).0[c][t] as int,
                None => if t == 0 {
                    input_len as int
                } else {
                    per_turn_len as int
                },
            };
            let base = prompt_of(
                tokenizer,
                drawn_tokens(
                    seeded_words(cfg.seed.wrapping_add(0xCACE)),
                    allowed,
                    cfg.cache_base_len as nat,
                ),
                cfg.cache_base_len as nat,
            );
            let base_len: int = if cfg.cache_base_len > 0 {
                base->Ok_0.1.len() as int
            } else {
                0
            };
            let listed = cfg.cached_lens@[target] as int;
            let cached: int = if cache && t == 0 && next_choices(
                seeded_words(cfg.seed.wrapping_add(0xF00D)),
                cfg.cache_hit_fraction,
                cfg.num_conversations as nat,
            ).0[c] {
                if listed <= base_len && listed <= target {
                    listed
                } else if base_len <= target {
                    base_len
                } else {
                    target
                }
            } else {
                0
            };
            let own = if target == cached {
                Ok((Seq::<char>::empty(), Seq::<u32>::empty()))
            } else {
                prompt_of(
                    tokenizer,
                    Seq::new(
                        (target - cached) as nat,
                        |i: int| allowed[(start + i) % (allowed.len() as int)],
                    ),
                    (target - cached) as nat,
                )
            };
            let turn = conversations[c].turns[t];
            &&& own is Ok
            &&& if cached > 0 {
                &&& base is Ok
                &&& tokenizer.decoded(base->Ok_0.1.take(cached), true) matches Ok(before)
                    && turn.user_message == before + own->Ok_0.0
                &&& tokenizer.encoded(turn.user_message, false) matches Ok(tokens)
                    && turn.user_message_len == tokens.len() as usize
            } else if t == 0 && !cache && cfg.prefix_len > 0 {
                let prefix = prompt_of(
                    tokenizer,
                    drawn_tokens(
                        seeded_words(cfg.seed.wrapping_add(0xDEAD)),
                        allowed,
                        cfg.prefix_len as nat,
                    ),
                    cfg.prefix_len as nat,
                );
                &&& prefix is Ok
                &&& turn.user_message == prefix->Ok_0.0 + own->Ok_0.0
                &&& prefix->Ok_0.0.len() > 0 ==> (tokenizer.encoded(
                    turn.user_message,
                    false,
                ) matches Ok(tokens) && turn.user_message_len == tokens.len() as usize)
                &&& prefix->Ok_0.0.len() == 0 ==> turn.user_message_len
                    == own->Ok_0.1.len() as usize
            } else {
                &&& turn.user_message == own->Ok_0.0
                &&& turn.user_message_len == own->Ok_0.1.len() as usize
            }
        }),
{
    let plan = plan_of(tokenizer, cfg)->Ok_0;
    lemma_plan_rows(tokenizer, cfg, plan);
    law_generated_shape(tokenizer, cfg, conversations, c, t);
    law_generated_turns(tokenizer, cfg, plan, conversations, c, t);
    law_prompt_is_not_too_long(
        tokenizer,
        drawn_tokens(
            seeded_words(cfg.seed.wrapping_add(0xCACE)),
            tokenizer.allowed_tokens,
            cfg.cache_base_len as nat,
        ),
        cfg.cache_base_len as nat,
        0,
    );
    let turn = conversations[c].turns[t];
    let allowed = tokenizer.allowed_tokens;
    assert(turn_of(tokenizer, plan, c, t) == Ok::<TurnView, BenchErrorView>(turn));
    assert(token_seq(allowed, plan.start(c, t), plan.suffix_len(c, t)) =~= Seq::new(
        plan.suffix_len(c, t),
        |i: int| allowed[(plan.start(c, t) + i) % (allowed.len() as int)],
    ));
    if plan.shared_prefix_text.len() == 0 {
        let text = suffix_of(tokenizer, plan.start(c, t), plan.suffix_len(c, t))->Ok_0.0;
        assert(plan.shared_prefix_text + text =~= text);
    }
}

/// Turn 0 of a warm conversation begins with as many base tokens as the table lists for its
/// length, wherever the base prefix and the turn have that many, and the rest are its own.
pub proof fn law_warm_turns_begin_with_the_listed_part(
    tokenizer: TokenizerModel,
    plan: PlanView,
    c: int,
    target: usize,
    listed: usize,
    turn: TurnView,
)
    requires
        plan.warm matches Some(warm) && warm[c],
        plan.turn_lens matches Some(lens) ==> target == lens[c][0],
        plan.turn_lens is None ==> target == plan.input_len,
        listed == plan.cached_lens[target as int],
        0 < listed <= target,
        listed <= plan.base_tokens.len() <= usize::MAX,
        turn_of(tokenizer, plan, c, 0) == Ok::<TurnView, BenchErrorView>(turn),
    ensures
        tokenizer.decoded(plan.base_tokens.take(listed as int), true) matches Ok(cached_text)
            && cached_text.is_prefix_of(turn.user_message) && (listed == target
            ==> turn.user_message == cached_text) && (listed < target ==> (prompt_of(
            tokenizer,
            Seq::new(
                (target - listed) as nat,
                |i: int|
                    tokenizer.allowed_tokens[(plan.offsets[c][0] + c * plan.max_turns + i) % (
                    tokenizer.allowed_tokens.len() as int)],
            ),
            (target - listed) as nat,
        ) matches Ok((own_text, _)) && turn.user_message == cached_text + own_text)),
{
    let start = plan.start(c, 0);
    let allowed = tokenizer.allowed_tokens;
    assert(plan.cached_len(c, 0) == listed);
    let own = token_seq(allowed, start, (target - listed) as nat);
    assert(own =~= Seq::new(
        (target - listed) as nat,
        |i: int|
            allowed[(plan.offsets[c][0] + c * plan.max_turns + i) % (allowed.len() as int)],
    ));
    let cached_text = tokenizer.decoded(plan.base_tokens.take(listed as int), true)->Ok_0;
    assert(cached_text + Seq::<char>::empty() =~= cached_text);
}

/// Where generating fails and nothing is refused, it fails as the tokenizer did.
pub proof fn law_generating_fails_as_the_tokenizer_does(
    tokenizer: TokenizerModel,
    cfg: &MultiTurnRandomConfig,
    error: BenchErrorView,
)
    requires
        refusal(tokenizer.allowed_tokens, tokenizer.num_special_tokens, cfg) is None,
        generated(tokenizer, cfg) == Err::<Seq<ConversationView>, BenchErrorView>(error),
    ensures
        (exists|tried: Seq<u32>|
            (#[trigger] tokenizer.decoded(tried, true)) == Err::<Seq<char>, BenchErrorView>(
                error,
            )) || (exists|text: Seq<char>|
            (#[trigger] tokenizer.encoded(text, false)) == Err::<Seq<u32>, BenchErrorView>(error)),
{
    match cfg.prefix_sharing_config {
        Some(sharing) => {
            lemma_prefix_errors(tokenizer, cfg, sharing, error);
        },
        None => {
            let plan_result = plan_of(tokenizer, cfg);
            if plan_result is Err {
                if base_of(tokenizer, cfg) is Err {
                    law_prompt_errors_are_the_tokenizers(
                        tokenizer,
                        drawn_tokens(
                            seeded_words(cfg.seed.wrapping_add(0xCACE)),
                            tokenizer.allowed_tokens,
                            cfg.cache_base_len as nat,
                        ),
                        cfg.cache_base_len as nat,
                        0,
                    );
                } else {
                    lemma_shared_prefix_errors(tokenizer, cfg.prefix_len, cfg.seed);
                }
            } else {
                let plan = plan_result->Ok_0;
                let all = |i: int| conversation_of(tokenizer, plan, i);
                let c = law_collected_errors_are_values(all, plan.offsets.len());
                let turns = |i: int| turn_of(tokenizer, plan, c, i);
                let t = law_collected_errors_are_values(turns, plan.offsets[c].len());
                lemma_suffix_errors(tokenizer, plan.start(c, t), plan.suffix_len(c, t));
            }
        },
    }
}

/// The prompts of a turn's own tokens fail as the tokenizer does.
proof fn lemma_suffix_errors(tokenizer: TokenizerModel, start: int, len: nat)
    ensures
        suffix_of(tokenizer, start, len) matches Err(error) ==> (exists|tried: Seq<u32>|
            (#[trigger] tokenizer.decoded(tried, true)) == Err::<Seq<char>, BenchErrorView>(
                error,
            )) || (exists|text: Seq<char>|
            (#[trigger] tokenizer.encoded(text, false)) == Err::<Seq<u32>, BenchErrorView>(error)),
{
    if suffix_of(tokenizer, start, len) is Err {
        law_prompt_errors_are_the_tokenizers(
            tokenizer,
            token_seq(tokenizer.allowed_tokens, start, len),
            len,
            0,
        );
    }
}

/// Shared prefixes fail as the tokenizer does.
proof fn lemma_shared_prefix_errors(tokenizer: TokenizerModel, prefix_len: usize, seed: u64)
    ensures
        shared_prefix_of(tokenizer, prefix_len, seed) matches Err(error) ==> (exists|
            tried: Seq<u32>,
        |
            (#[trigger] tokenizer.decoded(tried, true)) == Err::<Seq<char>, BenchErrorView>(
                error,
            )) || (exists|text: Seq<char>|
            (#[trigger] tokenizer.encoded(text, false)) == Err::<Seq<u32>, BenchErrorView>(error)),
{
    if shared_prefix_of(tokenizer, prefix_len, seed) is Err {
        law_prompt_errors_are_the_tokenizers(
            tokenizer,
            drawn_tokens(
                seeded_words(seed.wrapping_add(0xDEAD)),
                tokenizer.allowed_tokens,
                prefix_len as nat,
            ),
            prefix_len as nat,
            0,
        );
    }
}

/// Conversations with shared prefixes fail as the tokenizer does.
proof fn lemma_prefix_errors(
    tokenizer: TokenizerModel,
    cfg: &MultiTurnRandomConfig,
    sharing: PrefixSharingConfig,
    error: BenchErrorView,
)
    requires
        checked_prefix_lens(tokenizer.num_special_tokens, cfg, sharing) is Ok,
        prefix_generated(tokenizer, cfg, sharing) == Err::<Seq<ConversationView>, BenchErrorView>(
            error,
        ),
    ensures
        (exists|tried: Seq<u32>|
            (#[trigger] tokenizer.decoded(tried, true)) == Err::<Seq<char>, BenchErrorView>(
                error,
            )) || (exists|text: Seq<char>|
            (#[trigger] tokenizer.encoded(text, false)) == Err::<Seq<u32>, BenchErrorView>(error)),
{
    let plan_result = prefix_plan_of(tokenizer, cfg, sharing);
    let draws = prefix_draws(
        tokenizer.allowed_tokens.len(),
        tokenizer.vocab_size,
        cfg,
        sharing,
    );
    if plan_result is Err {
        lemma_shared_prefix_errors(tokenizer, cfg.prefix_len, cfg.seed);
        lemma_suffix_errors(tokenizer, draws.global_offset as int, sharing.global_len as nat);
        let texts = conv_texts_of(
            tokenizer,
            draws.conv_offsets,
            sharing.conversation_len as nat,
            draws.conv_offsets.len(),
        );
        if texts is Err {
            let text = |i: int|
                text_part(
                    suffix_of(
                        tokenizer,
                        draws.conv_offsets[i] + i,
                        sharing.conversation_len as nat,
                    ),
                );
            let c = law_collected_errors_are_values(text, draws.conv_offsets.len());
            lemma_suffix_errors(
                tokenizer,
                draws.conv_offsets[c] + c,
                sharing.conversation_len as nat,
            );
        }
    } else {
        let plan = plan_result->Ok_0;
        let all = |i: int| prefix_conversation_of(tokenizer, plan, i);
        let c = law_collected_errors_are_values(all, plan.unique_offsets.len());
        let turns = |i: int| prefix_turn_of(tokenizer, plan, c, i);
        let t = law_collected_errors_are_values(turns, plan.unique_offsets[c].len());
        lemma_suffix_errors(tokenizer, plan.start(c, t), plan.own_len(t) as nat);
    }
}

/// The places from which the prefixes of conversations start, and the words that are left: drawn
/// one after the other, behind the place of the global prefix.
proof fn lemma_prefix_places(
    tokenizer: TokenizerModel,
    cfg: &MultiTurnRandomConfig,
    sharing: PrefixSharingConfig,
    c: int,
)
    requires
        tokenizer.allowed_tokens.len() > 0,
        tokenizer.vocab_size > 0,
        0 <= c < cfg.num_conversations,
    ensures
        ({
            let draws = prefix_draws(
                tokenizer.allowed_tokens.len(),
                tokenizer.vocab_size,
                cfg,
                sharing,
            );
            let n = cfg.num_conversations as nat;
            let last = (tokenizer.allowed_tokens.len() - 1) as usize;
            let (global_offset, after_global) = if sharing.global_len > 0 {
                next_in(seeded_words(cfg.seed), 0, last)
            } else {
                (0, seeded_words(cfg.seed))
            };
            let (offsets, after_convs) = if sharing.conversation_len > 0 {
                next_many(after_global, 0, last, n)
            } else {
                (Seq::new(n, |i: int| 0usize), after_global)
            };
            let (counts, after_counts) = if cfg.min_turns == cfg.max_turns {
                (Seq::new(n, |i: int| cfg.min_turns), after_convs)
            } else {
                next_many(after_convs, cfg.min_turns, cfg.max_turns, n)
            };
            let rows = next_rows(
                after_counts,
                0,
                (tokenizer.vocab_size - 1) as usize,
                counts,
            ).0;
            &&& draws.global_offset == global_offset
            &&& draws.conv_offsets == offsets
            &&& draws.unique_offsets == rows
            &&& offsets.len() == n
            &&& counts.len() == n
            &&& rows.len() == n
            &&& rows[c].len() == counts[c]
        }),
{
    let n = cfg.num_conversations as nat;
    let last = (tokenizer.allowed_tokens.len() - 1) as usize;
    let after_global = if sharing.global_len > 0 {
        next_in(seeded_words(cfg.seed), 0, last).1
    } else {
        seeded_words(cfg.seed)
    };
    law_draws_lie_in_range(after_global, 0, last, n);
    let after_convs = if sharing.conversation_len > 0 {
        next_many(after_global, 0, last, n).1
    } else {
        after_global
    };
    law_draws_lie_in_range(after_convs, cfg.min_turns, cfg.max_turns, n);
    let (counts, after_counts) = if cfg.min_turns == cfg.max_turns {
        (Seq::new(n, |i: int| cfg.min_turns), after_convs)
    } else {
        next_many(after_convs, cfg.min_turns, cfg.max_turns, n)
    };
    law_rows_lie_in_range(after_counts, 0, (tokenizer.vocab_size - 1) as usize, counts);
}

/// Every message with shared prefixes is four texts side by side: the shared prefix, the global
/// prefix, the prefix of its conversation and the turn's own text. Each is the prompt of its
/// tokens, and empty where it is to have none:
///
/// - the global prefix, of the allowed tokens from one drawn place on;
/// - the prefix of conversation `c`, of the allowed tokens from the place that was drawn for `c`
///   on, moved by `c`;
/// - the own text of turn `t`, of the allowed tokens from the place that was drawn for it on,
///   moved by `t` and by as many turns as conversations before `c` may have.
///
/// The own text has what the prefixes leave of the length that was asked for. The whole message is
/// encoded to count it. Identifiers, turn counts and output lengths are as in the other mode.
pub proof fn law_generated_prefix_messages(
    tokenizer: TokenizerModel,
    cfg: &MultiTurnRandomConfig,
    sharing: PrefixSharingConfig,
    conversations: Seq<ConversationView>,
    c: int,
    t: int,
)
    requires
        tokenizer.allowed_tokens.len() > 0,
        tokenizer.vocab_size > 0,
        prefix_generated(tokenizer, cfg, sharing) == Ok::<Seq<ConversationView>, BenchErrorView>(
            conversations,
        ),
        0 <= c < cfg.num_conversations,
    ensures
        ({
            let allowed = tokenizer.allowed_tokens;
            let n = cfg.num_conversations as nat;
            let last = (allowed.len() - 1) as usize;
            let (global_offset, after_global) = if sharing.global_len > 0 {
                next_in(seeded_words(cfg.seed), 0, last)
            } else {
                (0, seeded_words(cfg.seed))
            };
            let (offsets, after_convs) = if sharing.conversation_len > 0 {
                next_many(after_global, 0, last, n)
            } else {
                (Seq::new(n, |i: int| 0usize), after_global)
            };
            let (counts, after_counts) = if cfg.min_turns == cfg.max_turns {
                (Seq::new(n, |i: int| cfg.min_turns), after_convs)
            } else {
                next_many(after_convs, cfg.min_turns, cfg.max_turns, n)
            };
            let rows = next_rows(
                after_counts,
                0,
                (tokenizer.vocab_size - 1) as usize,
                counts,
            ).0;
            let input_len: int = if cfg.input_len >= tokenizer.num_special_tokens {
                cfg.input_len - tokenizer.num_special_tokens
            } else {
                0
            };
            let per_turn_len: int = if cfg.per_turn_input_len == 0 {
                input_len
            } else if cfg.per_turn_input_len >= tokenizer.num_special_tokens {
                cfg.per_turn_input_len - tokenizer.num_special_tokens
            } else {
                0
            };
            let left = (if t == 0 {
                input_len
            } else {
                per_turn_len
            }) - sharing.global_len - sharing.conversation_len;
            let own_len = if left > 0 {
                left as nat
            } else {
                0
            };
            let part = |start: int, len: nat|
                if len == 0 {
                    Ok((Seq::<char>::empty(), Seq::<u32>::empty()))
                } else {
                    prompt_of(
                        tokenizer,
                        Seq::new(len, |i: int| allowed[(start + i) % (allowed.len() as int)]),
                        len,
                    )
                };
            let shared = if cfg.prefix_len == 0 {
                Ok((Seq::<char>::empty(), Seq::<u32>::empty()))
            } else {
                prompt_of(
                    tokenizer,
                    drawn_tokens(
                        seeded_words(cfg.seed.wrapping_add(0xDEAD)),
                        allowed,
                        cfg.prefix_len as nat,
                    ),
                    cfg.prefix_len as nat,
                )
            };
            let global = part(global_offset as int, sharing.global_len as nat);
            let conv = part(offsets[c] + c, sharing.conversation_len as nat);
            let own = part(rows[c][t] + c * cfg.max_turns + t, own_len);
            let turn = conversations[c].turns[t];
            &&& conversations.len() == n
            &&& conversations[c].conversation_id == cfg.request_id_prefix@ + "conv-"@ + decimal(
                c as nat,
            )
            &&& conversations[c].turns.len() == counts[c]
            &&& shared is Ok && global is Ok && conv is Ok
            &&& 0 <= t < counts[c] ==> {
                &&& own is Ok
                &&& turn.user_message == shared->Ok_0.0 + global->Ok_0.0 + conv->Ok_0.0
                    + own->Ok_0.0
                &&& tokenizer.encoded(turn.user_message, false) matches Ok(tokens)
                    && turn.user_message_len == tokens.len() as usize
                &&& turn.expected_output_len == cfg.output_len
            }
        }),
{
    let allowed = tokenizer.allowed_tokens;
    let plan = prefix_plan_of(tokenizer, cfg, sharing)->Ok_0;
    let draws = prefix_draws(allowed.len(), tokenizer.vocab_size, cfg, sharing);
    lemma_prefix_places(tokenizer, cfg, sharing, c);
    let global_start = draws.global_offset as int;
    let conv_start = draws.conv_offsets[c] + c;
    assert(token_seq(allowed, global_start, sharing.global_len as nat) =~= Seq::new(
        sharing.global_len as nat,
        |i: int| allowed[(global_start + i) % (allowed.len() as int)],
    ));
    assert(token_seq(allowed, conv_start, sharing.conversation_len as nat) =~= Seq::new(
        sharing.conversation_len as nat,
        |i: int| allowed[(conv_start + i) % (allowed.len() as int)],
    ));
    let text = |i: int|
        text_part(
            suffix_of(tokenizer, draws.conv_offsets[i] + i, sharing.conversation_len as nat),
        );
    law_collected_keeps_order(text, draws.conv_offsets.len());
    assert(text(c) == Ok::<Seq<char>, BenchErrorView>(plan.conv_texts[c]));
    let all = |i: int| prefix_conversation_of(tokenizer, plan, i);
    law_collected_keeps_order(all, plan.unique_offsets.len());
    assert(all(c) == Ok::<ConversationView, BenchErrorView>(conversations[c]));
    law_collected_keeps_order(
        |i: int| prefix_turn_of(tokenizer, plan, c, i),
        plan.unique_offsets[c].len(),
    );
    if 0 <= t < plan.unique_offsets[c].len() {
        law_generated_prefix_turns(tokenizer, cfg, sharing, plan, conversations, c, t);
        let start = plan.start(c, t);
        let len = plan.own_len(t) as nat;
        assert(token_seq(allowed, start, len) =~= Seq::new(
            len,
            |i: int| allowed[(start + i) % (allowed.len() as int)],
        ));
    }
}

/// With an exact tokenizer and no allowed token twice, conversations whose prefixes start at
/// different places, for any two of them, go on differently behind the texts that all share, in
/// each of their turns.
pub proof fn law_conversations_diverge_behind_the_global_prefix(
    tokenizer: TokenizerModel,
    cfg: &MultiTurnRandomConfig,
    sharing: PrefixSharingConfig,
    conversations: Seq<ConversationView>,
    c: int,
    t: int,
    other_c: int,
    other_t: int,
    offsets: Seq<usize>,
)
    requires
        tokenizer.vocab_size > 0,
        0 < tokenizer.allowed_tokens.len() <= usize::MAX,
        tokenizer.allowed_tokens.no_duplicates(),
        tokenizer.exact(sharing.conversation_len as nat),
        sharing.conversation_len > 0,
        prefix_generated(tokenizer, cfg, sharing) == Ok::<Seq<ConversationView>, BenchErrorView>(
            conversations,
        ),
        0 <= c < cfg.num_conversations,
        0 <= other_c < cfg.num_conversations,
        0 <= t < conversations[c].turns.len(),
        0 <= other_t < conversations[other_c].turns.len(),
        offsets == next_many(
            if sharing.global_len > 0 {
                next_in(
                    seeded_words(cfg.seed),
                    0,
                    (tokenizer.allowed_tokens.len() - 1) as usize,
                ).1
            } else {
                seeded_words(cfg.seed)
            },
            0,
            (tokenizer.allowed_tokens.len() - 1) as usize,
            cfg.num_conversations as nat,
        ).0,
        (offsets[c] + c) % (tokenizer.allowed_tokens.len() as int) != (offsets[other_c] + other_c)
            % (tokenizer.allowed_tokens.len() as int),
    ensures
        ({
            let plan = prefix_plan_of(tokenizer, cfg, sharing)->Ok_0;
            let shared = plan.shared_prefix_text + plan.global_text;
            let len = sharing.conversation_len as nat;
            let tokens = Seq::new(
                len,
                |i: int|
                    tokenizer.allowed_tokens[(offsets[c] + c + i) % (
                    tokenizer.allowed_tokens.len() as int)],
            );
            let other_tokens = Seq::new(
                len,
                |i: int|
                    tokenizer.allowed_tokens[(offsets[other_c] + other_c + i) % (
                    tokenizer.allowed_tokens.len() as int)],
            );
            let text = tokenizer.decoded(tokens, true)->Ok_0;
            let other_text = tokenizer.decoded(other_tokens, true)->Ok_0;
            &&& (shared + text).is_prefix_of(conversations[c].turns[t].user_message)
            &&& (shared + other_text).is_prefix_of(
                conversations[other_c].turns[other_t].user_message,
            )
            &&& text != other_text
            &&& tokens[0] != other_tokens[0]
        }),
{
    let allowed = tokenizer.allowed_tokens;
    let n = allowed.len() as int;
    let len = sharing.conversation_len as nat;
    let plan = prefix_plan_of(tokenizer, cfg, sharing)->Ok_0;
    let draws = prefix_draws(allowed.len(), tokenizer.vocab_size, cfg, sharing);
    lemma_prefix_places(tokenizer, cfg, sharing, c);
    lemma_prefix_places(tokenizer, cfg, sharing, other_c);
    assert(draws.conv_offsets == offsets);
    law_generated_prefix_messages(tokenizer, cfg, sharing, conversations, c, t);
    law_generated_prefix_messages(tokenizer, cfg, sharing, conversations, other_c, other_t);
    law_generated_prefix_turns(tokenizer, cfg, sharing, plan, conversations, c, t);
    law_generated_prefix_turns(tokenizer, cfg, sharing, plan, conversations, other_c, other_t);
    law_different_starts_give_different_texts(
        tokenizer,
        offsets[c] + c,
        len,
        offsets[other_c] + other_c,
        len,
        len,
    );
    let text_of = |i: int| text_part(suffix_of(tokenizer, draws.conv_offsets[i] + i, len));
    law_collected_keeps_order(text_of, draws.conv_offsets.len());
    assert(text_of(c) == Ok::<Seq<char>, BenchErrorView>(plan.conv_texts[c]));
    assert(text_of(other_c) == Ok::<Seq<char>, BenchErrorView>(plan.conv_texts[other_c]));
    let tokens = Seq::new(len, |i: int| allowed[(offsets[c] + c + i) % n]);
    let other_tokens = Seq::new(len, |i: int| allowed[(offsets[other_c] + other_c + i) % n]);
    assert(token_seq(allowed, offsets[c] + c, len) =~= tokens);
    assert(token_seq(allowed, offsets[other_c] + other_c, len) =~= other_tokens);
    law_stable_tokens_are_kept(tokenizer, tokens, tokenizer.decoded(tokens, true)->Ok_0);
    law_stable_tokens_are_kept(
        tokenizer,
        other_tokens,
        tokenizer.decoded(other_tokens, true)->Ok_0,
    );
    law_turns_share_prefixes(tokenizer, plan, c, t, conversations[c].turns[t]);
    law_turns_share_prefixes(
        tokenizer,
        plan,
        other_c,
        other_t,
        conversations[other_c].turns[other_t],
    );
    assert(tokens[0] == allowed[(offsets[c] + c) % n]);
    assert(other_tokens[0] == allowed[(offsets[other_c] + other_c) % n]);
}

/// A turn fails as the first of its steps that fails: the prompt of its own tokens, what its
/// cached part decodes to, and the encoding of a message that has something before its own text.
/// A turn none of whose steps fails is made.
pub proof fn law_turns_fail_as_their_first_failing_step(
    tokenizer: TokenizerModel,
    plan: PlanView,
    c: int,
    t: int,
    cached: int,
    own: Result<(Seq<char>, Seq<u32>), BenchErrorView>,
)
    requires
        plan.base_tokens.len() <= usize::MAX,
        ({
            let target: int = match plan.turn_lens {
                Some(lens) => lens[c][t] as int,
                None => if t == 0 {
                    plan.input_len as int
                } else {
                    plan.per_turn_len as int
                },
            };
            let listed = plan.cached_lens[target] as int;
            let base_len = plan.base_tokens.len() as int;
            let start = plan.offsets[c][t] + c * plan.max_turns + t;
            let allowed = tokenizer.allowed_tokens;
            &&& cached == if t == 0 && (plan.warm matches Some(warm) && warm[c]) {
                if listed <= base_len && listed <= target {
                    listed
                } else if base_len <= target {
                    base_len
                } else {
                    target
                }
            } else {
                0
            }
            &&& own == if target == cached {
                Ok((Seq::<char>::empty(), Seq::<u32>::empty()))
            } else {
                prompt_of(
                    tokenizer,
                    Seq::new(
                        (target - cached) as nat,
                        |i: int| allowed[(start + i) % (allowed.len() as int)],
                    ),
                    (target - cached) as nat,
                )
            }
        }),
    ensures
        own matches Err(error) ==> turn_of(tokenizer, plan, c, t) == Err::<
            TurnView,
            BenchErrorView,
        >(error),
        own matches Ok((text, _)) ==> {
            let cached_text = tokenizer.decoded(plan.base_tokens.take(cached), true);
            let turn = turn_of(tokenizer, plan, c, t);
            if cached > 0 && cached_text is Err {
                turn == Err::<TurnView, BenchErrorView>(cached_text->Err_0)
            } else if cached > 0 || (t == 0 && plan.shared_prefix_text.len() > 0) {
                match tokenizer.encoded(
                    (if cached > 0 {
                        cached_text->Ok_0
                    } else {
                        plan.shared_prefix_text
                    }) + text,
                    false,
                ) {
                    Err(error) => turn == Err::<TurnView, BenchErrorView>(error),
                    Ok(_) => turn is Ok,
                }
            } else {
                turn is Ok
            }
        },
{
    let allowed = tokenizer.allowed_tokens;
    assert(plan.cached_len(c, t) == cached);
    assert(token_seq(allowed, plan.start(c, t), plan.suffix_len(c, t)) =~= Seq::new(
        plan.suffix_len(c, t),
        |i: int| allowed[(plan.start(c, t) + i) % (allowed.len() as int)],
    ));
}

/// Generating fails as the first step that fails: the prompt of the base prefix, where the prefix
/// cache is on, or of the shared prefix, where it is off; then the turns, one after the other.
pub proof fn law_generating_fails_as_its_first_failing_step(
    tokenizer: TokenizerModel,
    cfg: &MultiTurnRandomConfig,
    c: int,
    t: int,
    error: BenchErrorView,
)
    requires
        cfg.prefix_sharing_config is None,
        refusal(tokenizer.allowed_tokens, tokenizer.num_special_tokens, cfg) is None,
    ensures
        ({
            let cache = cfg.cache_hit_fraction > 0 && cfg.cache_ratio > 0;
            let len = (if cache {
                cfg.cache_base_len
            } else {
                cfg.prefix_len
            }) as nat;
            let first = prompt_of(
                tokenizer,
                drawn_tokens(
                    seeded_words(
                        cfg.seed.wrapping_add(
                            if cache {
                                0xCACE
                            } else {
                                0xDEAD
                            },
                        ),
                    ),
                    tokenizer.allowed_tokens,
                    len,
                ),
                len,
            );
            if len > 0 && first is Err {
                generated(tokenizer, cfg) == Err::<Seq<ConversationView>, BenchErrorView>(
                    first->Err_0,
                )
            } else {
                plan_of(tokenizer, cfg) is Ok
            }
        }),
        plan_of(tokenizer, cfg) matches Ok(plan) && 0 <= c < plan.offsets.len() && 0 <= t
            < plan.offsets[c].len() && turn_of(tokenizer, plan, c, t) == Err::<
            TurnView,
            BenchErrorView,
        >(error) && (forall|i: int, j: int|
            0 <= i <= c && 0 <= j < plan.offsets[i].len() && (i < c || j < t) ==> (
            #[trigger] turn_of(tokenizer, plan, i, j)) is Ok) ==> generated(tokenizer, cfg) == Err::<
            Seq<ConversationView>,
            BenchErrorView,
        >(error),
{
    if plan_of(tokenizer, cfg) is Ok {
        let plan = plan_of(tokenizer, cfg)->Ok_0;
        if 0 <= c < plan.offsets.len() && 0 <= t < plan.offsets[c].len() && turn_of(
            tokenizer,
            plan,
            c,
            t,
        ) == Err::<TurnView, BenchErrorView>(error) && (forall|i: int, j: int|
            0 <= i <= c && 0 <= j < plan.offsets[i].len() && (i < c || j < t) ==> (
            #[trigger] turn_of(tokenizer, plan, i, j)) is Ok) {
            let all = |i: int| conversation_of(tokenizer, plan, i);
            assert forall|i: int| 0 <= i < c implies (#[trigger] all(i)) is Ok by {
                law_collected_succeeds(
                    |j: int| turn_of(tokenizer, plan, i, j),
                    plan.offsets[i].len(),
                );
            }
            law_collected_gives_the_first_error(
                |j: int| turn_of(tokenizer, plan, c, j),
                error,
                t as nat,
                plan.offsets[c].len(),
            );
            law_collected_gives_the_first_error(all, error, c as nat, plan.offsets.len());
        }
    }
}

/// With shared prefixes, generating fails as the first step that fails: the prompt of the shared
/// prefix, of the global prefix, of the prefixes of the conversations, one after the other; then
/// the turns, one after the other, each as the prompt of its own tokens or the encoding of the
/// whole message does.
pub proof fn law_sharing_fails_as_its_first_failing_step(
    tokenizer: TokenizerModel,
    cfg: &MultiTurnRandomConfig,
    sharing: PrefixSharingConfig,
    c: int,
    t: int,
    error: BenchErrorView,
)
    requires
        checked_prefix_lens(tokenizer.num_special_tokens, cfg, sharing) is Ok,
    ensures
        ({
            let draws = prefix_draws(
                tokenizer.allowed_tokens.len(),
                tokenizer.vocab_size,
                cfg,
                sharing,
            );
            let allowed = tokenizer.allowed_tokens;
            let result = prefix_generated(tokenizer, cfg, sharing);
            let part = |start: int, len: nat|
                if len == 0 {
                    Ok((Seq::<char>::empty(), Seq::<u32>::empty()))
                } else {
                    prompt_of(
                        tokenizer,
                        Seq::new(len, |i: int| allowed[(start + i) % (allowed.len() as int)]),
                        len,
                    )
                };
            let shared = if cfg.prefix_len == 0 {
                Ok((Seq::<char>::empty(), Seq::<u32>::empty()))
            } else {
                prompt_of(
                    tokenizer,
                    drawn_tokens(
                        seeded_words(cfg.seed.wrapping_add(0xDEAD)),
                        allowed,
                        cfg.prefix_len as nat,
                    ),
                    cfg.prefix_len as nat,
                )
            };
            let global = part(draws.global_offset as int, sharing.global_len as nat);
            let conv = |i: int| part(draws.conv_offsets[i] + i, sharing.conversation_len as nat);
            &&& shared matches Err(failure) ==> result == Err::<
                Seq<ConversationView>,
                BenchErrorView,
            >(failure)
            &&& shared is Ok ==> (global matches Err(failure) ==> result == Err::<
                Seq<ConversationView>,
                BenchErrorView,
            >(failure))
            &&& shared is Ok && global is Ok && 0 <= c < draws.conv_offsets.len() && conv(c)
                == Err::<(Seq<char>, Seq<u32>), BenchErrorView>(error) && (forall|i: int|
                0 <= i < c ==> (#[trigger] conv(i)) is Ok) ==> result == Err::<
                Seq<ConversationView>,
                BenchErrorView,
            >(error)
            &&& shared is Ok && global is Ok && (forall|i: int|
                0 <= i < draws.conv_offsets.len() ==> (#[trigger] conv(i)) is Ok)
                ==> prefix_plan_of(tokenizer, cfg, sharing) is Ok
        }),
        prefix_plan_of(tokenizer, cfg, sharing) matches Ok(plan) && 0 <= c
            < plan.unique_offsets.len() && 0 <= t < plan.unique_offsets[c].len()
            && prefix_turn_of(tokenizer, plan, c, t) == Err::<TurnView, BenchErrorView>(error) && (
        forall|i: int, j: int|
            0 <= i <= c && 0 <= j < plan.unique_offsets[i].len() && (i < c || j < t) ==> (
            #[trigger] prefix_turn_of(tokenizer, plan, i, j)) is Ok) ==> prefix_generated(
            tokenizer,
            cfg,
            sharing,
        ) == Err::<Seq<ConversationView>, BenchErrorView>(error),
{
    let allowed = tokenizer.allowed_tokens;
    let draws = prefix_draws(allowed.len(), tokenizer.vocab_size, cfg, sharing);
    let len = sharing.conversation_len as nat;
    let n = allowed.len() as int;
    assert(token_seq(allowed, draws.global_offset as int, sharing.global_len as nat) =~= Seq::new(
        sharing.global_len as nat,
        |i: int| allowed[(draws.global_offset + i) % n],
    ));
    let part = |start: int, len: nat|
        if len == 0 {
            Ok((Seq::<char>::empty(), Seq::<u32>::empty()))
        } else {
            prompt_of(tokenizer, Seq::new(len, |i: int| allowed[(start + i) % n]), len)
        };
    let conv = |i: int| part(draws.conv_offsets[i] + i, len);
    let text = |i: int| text_part(suffix_of(tokenizer, draws.conv_offsets[i] + i, len));
    assert forall|i: int| #[trigger] conv(i) == suffix_of(
        tokenizer,
        draws.conv_offsets[i] + i,
        len,
    ) by {
        let start = draws.conv_offsets[i] + i;
        assert(token_seq(allowed, start, len) =~= Seq::new(
            len,
            |j: int| allowed[(start + j) % n],
        ));
    }
    assert forall|i: int| (#[trigger] text(i)) is Ok <==> conv(i) is Ok by {}
    if forall|i: int| 0 <= i < draws.conv_offsets.len() ==> (#[trigger] conv(i)) is Ok {
        law_collected_succeeds(text, draws.conv_offsets.len());
    }
    if 0 <= c < draws.conv_offsets.len() && conv(c) == Err::<
        (Seq<char>, Seq<u32>),
        BenchErrorView,
    >(error) && (forall|i: int| 0 <= i < c ==> (#[trigger] conv(i)) is Ok) {
        law_collected_gives_the_first_error(text, error, c as nat, draws.conv_offsets.len());
    }
    if prefix_plan_of(tokenizer, cfg, sharing) is Ok {
        let plan = prefix_plan_of(tokenizer, cfg, sharing)->Ok_0;
        if 0 <= c < plan.unique_offsets.len() && 0 <= t < plan.unique_offsets[c].len()
            && prefix_turn_of(tokenizer, plan, c, t) == Err::<TurnView, BenchErrorView>(error) && (
        forall|i: int, j: int|
            0 <= i <= c && 0 <= j < plan.unique_offsets[i].len() && (i < c || j < t) ==> (
            #[trigger] prefix_turn_of(tokenizer, plan, i, j)) is Ok) {
            let all = |i: int| prefix_conversation_of(tokenizer, plan, i);
            assert forall|i: int| 0 <= i < c implies (#[trigger] all(i)) is Ok by {
                law_collected_succeeds(
                    |j: int| prefix_turn_of(tokenizer, plan, i, j),
                    plan.unique_offsets[i].len(),
                );
            }
            law_collected_gives_the_first_error(
                |j: int| prefix_turn_of(tokenizer, plan, c, j),
                error,
                t as nat,
                plan.unique_offsets[c].len(),
            );
            law_collected_gives_the_first_error(all, error, c as nat, plan.unique_offsets.len());
        }
    }
}

/// A turn with shared prefixes fails as the prompt of its own tokens, or as the encoding of the
/// whole message, in this order, and is made where neither fails.
pub proof fn law_prefix_turns_fail_as_their_first_failing_step(
    tokenizer: TokenizerModel,
    plan: PrefixPlanView,
    c: int,
    t: int,
    len: usize,
    own: Result<(Seq<char>, Seq<u32>), BenchErrorView>,
)
    requires
        len == if t == 0 {
            plan.unique_len
        } else {
            plan.later_unique_len
        },
        ({
            let allowed = tokenizer.allowed_tokens;
            let start = plan.unique_offsets[c][t] + c * plan.max_turns + t;
            own == if len == 0 {
                Ok((Seq::<char>::empty(), Seq::<u32>::empty()))
            } else {
                prompt_of(
                    tokenizer,
                    Seq::new(
                        len as nat,
                        |i: int| allowed[(start + i) % (allowed.len() as int)],
                    ),
                    len as nat,
                )
            }
        }),
    ensures
        match own {
            Err(error) => prefix_turn_of(tokenizer, plan, c, t) == Err::<TurnView, BenchErrorView>(
                error,
            ),
            Ok((text, _)) => match tokenizer.encoded(
                plan.shared_prefix_text + plan.global_text + plan.conv_texts[c] + text,
                false,
            ) {
                Err(error) => prefix_turn_of(tokenizer, plan, c, t) == Err::<
                    TurnView,
                    BenchErrorView,
                >(error),
                Ok(_) => prefix_turn_of(tokenizer, plan, c, t) is Ok,
            },
        },
{
    let allowed = tokenizer.allowed_tokens;
    assert(token_seq(allowed, plan.start(c, t), len as nat) =~= Seq::new(
        len as nat,
        |i: int| allowed[(plan.start(c, t) + i) % (allowed.len() as int)],
    ));
}

/// Where shared prefixes are asked for and the setup is sound, conversations with shared prefixes
/// are generated, and no others.
pub proof fn law_sharing_is_generated_where_asked_for(
    tokenizer: TokenizerModel,
    cfg: &MultiTurnRandomConfig,
    sharing: PrefixSharingConfig,
)
    requires
        cfg.prefix_sharing_config == Some(sharing),
        checked_setup(tokenizer.allowed_tokens, tokenizer.num_special_tokens, cfg) is Ok,
    ensures
        generated(tokenizer, cfg) == prefix_generated(tokenizer, cfg, sharing),
{
}

} // verus!
