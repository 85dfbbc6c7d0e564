//! What holds of generated conversations as a whole.
use vstd::prelude::*;
use crate::datasets::config::{
    FRACTION_ONE, MultiTurnRandomConfig, PrefixSharingConfig, checked_lens, checked_setup,
};
use crate::datasets::draws::{
    LengthBounds, bounds_of, drawn_tokens, last_index, law_drawn_tokens_are_allowed,
    law_drawn_tokens_go_on, law_len_rows_lie_within_bounds, law_one_allowed_token_is_drawn,
    longest, next_len_rows, turn_counts,
};
use crate::datasets::multi_turn::{
    generated, has_message_lens, is_message_len, longest_message, refusal,
};
use crate::datasets::parts::{laid_out, shared_prefix_of, suffix_of};
use crate::datasets::prefix_sharing::{
    PrefixPlanView, checked_prefix_lens, prefix_conversation_of, prefix_draws, prefix_generated,
    prefix_plan_of, prefix_turn_of, text_part,
};
use crate::datasets::prompt::{
    law_prompt_is_not_too_long, law_stable_tokens_are_kept, prompt_of, token_seq,
};
use crate::datasets::random_turns::{
    PlanView, conversation_of, drawn_plan, lemma_start_fits, plan_of, turn_of,
};
use crate::datasets::{ConversationView, TurnView, law_ids_are_distinct};
use crate::error::{
    BenchErrorView, law_collected_by_values, law_collected_fewer, law_collected_keeps_order,
    law_collected_succeeds,
};
use crate::rng::{
    law_draws_lie_in_range, law_rows_lie_in_range, next_choices, next_in, next_many, next_rows,
    seeded_words,
};
use crate::tokenizer::TokenizerModel;

verus! {

/// A length of 0 for later turns stands for the length of turn 0.
pub proof fn law_per_turn_len_falls_back(input_len: usize, num_special: usize)
    ensures
        checked_lens(input_len, 0, num_special) == checked_lens(input_len, input_len, num_special),
        checked_lens(input_len, 0, num_special) matches Ok((first, later)) ==> first == later,
{
}

/// The cached part and the turn's own part make up the turn's length, and only turn 0 of a warm
/// conversation has a cached part.
pub proof fn law_cached_and_own_make_target(plan: PlanView, c: int, t: int)
    requires
        plan.fits(),
        plan.has_turn(c, t),
    ensures
        plan.cached_len(c, t) + plan.suffix_len(c, t) == plan.target_len(c, t),
        plan.cached_len(c, t) <= plan.base_tokens.len(),
        plan.cached_len(c, t) > 0 ==> t == 0 && plan.warm is Some && plan.warm->0[c],
{
}

/// With the same drawn offset, different turns start at different places, whatever the turn
/// counts of the conversations.
pub proof fn law_turn_starts_differ(plan: PlanView, c: int, t: int, other_c: int, other_t: int)
    requires
        plan.has_turn(c, t),
        plan.has_turn(other_c, other_t),
        t < plan.max_turns,
        other_t < plan.max_turns,
        plan.offsets[c][t] == plan.offsets[other_c][other_t],
        c != other_c || t != other_t,
    ensures
        plan.start(c, t) != plan.start(other_c, other_t),
{
    lemma_strides_differ(c, t, other_c, other_t, plan.max_turns as int);
}

/// With the same drawn offset, the own tokens of different turns with shared prefixes start at
/// different places, whatever the turn counts of the conversations.
pub proof fn law_prefix_turn_starts_differ(
    plan: PrefixPlanView,
    c: int,
    t: int,
    other_c: int,
    other_t: int,
)
    requires
        plan.has_turn(c, t),
        plan.has_turn(other_c, other_t),
        t < plan.max_turns,
        other_t < plan.max_turns,
        plan.unique_offsets[c][t] == plan.unique_offsets[other_c][other_t],
        c != other_c || t != other_t,
    ensures
        plan.start(c, t) != plan.start(other_c, other_t),
{
    lemma_strides_differ(c, t, other_c, other_t, plan.max_turns as int);
}

/// Places counted in strides differ.
proof fn lemma_strides_differ(c: int, t: int, other_c: int, other_t: int, stride: int)
    requires
        0 <= t < stride,
        0 <= other_t < stride,
        c != other_c || t != other_t,
    ensures
        c * stride + t != other_c * stride + other_t,
{
    if c < other_c {
        assert(c * stride + stride <= other_c * stride) by (nonlinear_arith)
            requires
                c + 1 <= other_c,
                0 <= stride,
        ;
    } else if other_c < c {
        assert(other_c * stride + stride <= c * stride) by (nonlinear_arith)
            requires
                other_c + 1 <= c,
                0 <= stride,
        ;
    }
}

/// Where the cached slices of the base prefix decode to prefixes of each other, two warm
/// conversations begin with the same text: that of the shorter of their cached parts.
pub proof fn law_warm_conversations_share_prefix(
    tokenizer: TokenizerModel,
    plan: PlanView,
    a: int,
    b: int,
    cached_text: Seq<char>,
    turn_a: TurnView,
    turn_b: TurnView,
)
    requires
        0 < plan.cached_len(a, 0) <= plan.cached_len(b, 0),
        tokenizer.decoded(plan.base_tokens.take(plan.cached_len(a, 0) as int), true) == Ok::<
            Seq<char>,
            BenchErrorView,
        >(cached_text),
        tokenizer.decoded(
            plan.base_tokens.take(plan.cached_len(b, 0) as int),
            true,
        ) matches Ok(longer_text) ==> cached_text.is_prefix_of(longer_text),
        turn_of(tokenizer, plan, a, 0) == Ok::<TurnView, BenchErrorView>(turn_a),
        turn_of(tokenizer, plan, b, 0) == Ok::<TurnView, BenchErrorView>(turn_b),
    ensures
        cached_text.is_prefix_of(turn_a.user_message),
        cached_text.is_prefix_of(turn_b.user_message),
{
}

/// With an exact tokenizer, slices of the same tokens decode to prefixes of each other.
pub proof fn law_exact_slices_are_prefixes(
    tokenizer: TokenizerModel,
    tokens: Seq<u32>,
    a: int,
    b: int,
)
    requires
        tokenizer.exact(tokens.len()),
        0 <= a <= b <= tokens.len(),
    ensures
        tokenizer.decoded(tokens.take(a), true) matches Ok(text) && tokenizer.decoded(
            tokens.take(b),
            true,
        ) matches Ok(longer_text) && text.is_prefix_of(longer_text),
{
    let head = tokens.take(a);
    let rest = tokens.subrange(a, b);
    assert(tokens.take(b) =~= head + rest);
    assert(tokenizer.decoded(head + rest, true)->Ok_0 == tokenizer.decoded(head, true)->Ok_0
        + tokenizer.decoded(rest, true)->Ok_0);
}

/// Without the prefix cache, turn 0 of every conversation begins with the shared prefix, and
/// later turns are the turn's own text alone.
pub proof fn law_first_turns_begin_with_shared_prefix(
    tokenizer: TokenizerModel,
    plan: PlanView,
    c: int,
    t: int,
    turn: TurnView,
)
    requires
        plan.warm is None,
        turn_of(tokenizer, plan, c, t) == Ok::<TurnView, BenchErrorView>(turn),
    ensures
        t == 0 ==> plan.shared_prefix_text.is_prefix_of(turn.user_message),
        t != 0 ==> (suffix_of(
            tokenizer,
            plan.start(c, t),
            plan.target_len(c, t) as nat,
        ) matches Ok((text, _)) && turn.user_message == text),
{
}

/// With the prefix cache on, the length of the shared prefix makes no difference.
pub proof fn law_cache_replaces_shared_prefix(
    tokenizer: TokenizerModel,
    cfg: MultiTurnRandomConfig,
    prefix_len: usize,
)
    requires
        cfg.is_bimodal(),
    ensures
        plan_of(tokenizer, &(MultiTurnRandomConfig { prefix_len, ..cfg })) == plan_of(
            tokenizer,
            &cfg,
        ),
{
}

/// Turn counts and offsets depend on the seed, the turn bounds, the number of conversations and
/// the vocabulary alone: neither the prefix cache nor drawn lengths change them. Nor do those
/// change each other.
pub proof fn law_modes_do_not_disturb_each_other(
    vocab_size: u32,
    a: &MultiTurnRandomConfig,
    b: &MultiTurnRandomConfig,
    input_len: usize,
    per_turn_len: usize,
    other_input_len: usize,
    other_per_turn_len: usize,
)
    requires
        a.seed == b.seed,
        a.min_turns == b.min_turns,
        a.max_turns == b.max_turns,
        a.num_conversations == b.num_conversations,
    ensures
        drawn_plan(vocab_size, a, input_len, per_turn_len).offsets == drawn_plan(
            vocab_size,
            b,
            other_input_len,
            other_per_turn_len,
        ).offsets,
        a.turn_range == b.turn_range ==> drawn_plan(
            vocab_size,
            a,
            input_len,
            per_turn_len,
        ).turn_lens == drawn_plan(vocab_size, b, other_input_len, other_per_turn_len).turn_lens,
        a.is_bimodal() && b.is_bimodal() && a.cache_hit_fraction == b.cache_hit_fraction
            ==> drawn_plan(vocab_size, a, input_len, per_turn_len).warm == drawn_plan(
            vocab_size,
            b,
            other_input_len,
            other_per_turn_len,
        ).warm,
{
}

/// How many turns each conversation has does not depend on the vocabulary, for turn counts are
/// drawn first.
pub proof fn law_turn_counts_do_not_depend_on_vocabulary(
    vocab_size: u32,
    other_vocab_size: u32,
    cfg: &MultiTurnRandomConfig,
    input_len: usize,
    per_turn_len: usize,
)
    ensures
        drawn_plan(vocab_size, cfg, input_len, per_turn_len).offsets.len() == drawn_plan(
            other_vocab_size,
            cfg,
            input_len,
            per_turn_len,
        ).offsets.len(),
        forall|c: int|
            0 <= c < cfg.num_conversations ==> (#[trigger] drawn_plan(
                vocab_size,
                cfg,
                input_len,
                per_turn_len,
            ).offsets[c]).len() == drawn_plan(
                other_vocab_size,
                cfg,
                input_len,
                per_turn_len,
            ).offsets[c].len(),
{
    let n = cfg.num_conversations as nat;
    let words = seeded_words(cfg.seed);
    let (counts, rest) = turn_counts(words, cfg.min_turns, cfg.max_turns, n);
    law_turn_counts_lie_within_bounds(words, cfg.min_turns, cfg.max_turns, n);
    law_rows_lie_in_range(rest, 0, last_index(vocab_size as nat), counts);
    law_rows_lie_in_range(rest, 0, last_index(other_vocab_size as nat), counts);
}

/// Fixed turn counts are not drawn: every conversation has that many turns, and the generator is
/// left as it was.
pub proof fn law_fixed_turn_counts_draw_nothing(words: Map<nat, u32>, turns: usize, n: nat)
    ensures
        turn_counts(words, turns, turns, n) == (Seq::new(n, |i: int| turns), words),
{
}

/// With a fraction of one every conversation is warm, and with a fraction of zero none is.
pub proof fn law_extreme_fractions_are_certain(words: Map<nat, u32>, n: nat)
    ensures
        next_choices(words, FRACTION_ONE, n).0 == Seq::new(n, |i: int| true),
        next_choices(words, 0, n).0 == Seq::new(n, |i: int| false),
    decreases n,
{
    if n > 0 {
        law_extreme_fractions_are_certain(words, (n - 1) as nat);
    }
    assert(next_choices(words, FRACTION_ONE, n).0 =~= Seq::new(n, |i: int| true));
    assert(next_choices(words, 0, n).0 =~= Seq::new(n, |i: int| false));
}

/// No two generated conversations have the same identifier.
pub proof fn law_generated_ids_are_distinct(
    conversations: Seq<ConversationView>,
    cfg: &MultiTurnRandomConfig,
    rows: Seq<Seq<usize>>,
    i: int,
    j: int,
)
    requires
        laid_out(conversations, cfg, rows),
        0 <= i < j < conversations.len(),
    ensures
        conversations[i].conversation_id != conversations[j].conversation_id,
{
    law_ids_are_distinct(cfg.request_id_prefix@, i as nat, j as nat);
}

/// A generated conversation is made of the turns of its plan, in order.
pub proof fn law_generated_turns(
    tokenizer: TokenizerModel,
    cfg: &MultiTurnRandomConfig,
    plan: PlanView,
    conversations: Seq<ConversationView>,
    c: int,
    t: int,
)
    requires
        cfg.prefix_sharing_config is None,
        plan_of(tokenizer, cfg) == Ok::<PlanView, BenchErrorView>(plan),
        generated(tokenizer, cfg) == Ok::<Seq<ConversationView>, BenchErrorView>(conversations),
        plan.has_turn(c, t),
    ensures
        conversations.len() == plan.offsets.len(),
        conversations[c].turns.len() == plan.offsets[c].len(),
        turn_of(tokenizer, plan, c, t) == Ok::<TurnView, BenchErrorView>(
            conversations[c].turns[t],
        ),
{
    let all = |i: int| conversation_of(tokenizer, plan, i);
    law_collected_keeps_order(all, plan.offsets.len());
    assert(all(c) == Ok::<ConversationView, BenchErrorView>(conversations[c]));
    let turns = |i: int| turn_of(tokenizer, plan, c, i);
    law_collected_keeps_order(turns, plan.offsets[c].len());
    assert(turns(t) == Ok::<TurnView, BenchErrorView>(conversations[c].turns[t]));
}

/// A generated conversation with shared prefixes is made of the turns of its plan, in order.
pub proof fn law_generated_prefix_turns(
    tokenizer: TokenizerModel,
    cfg: &MultiTurnRandomConfig,
    sharing: PrefixSharingConfig,
    plan: PrefixPlanView,
    conversations: Seq<ConversationView>,
    c: int,
    t: int,
)
    requires
        prefix_plan_of(tokenizer, cfg, sharing) == Ok::<PrefixPlanView, BenchErrorView>(plan),
        prefix_generated(tokenizer, cfg, sharing) == Ok::<Seq<ConversationView>, BenchErrorView>(
            conversations,
        ),
        plan.has_turn(c, t),
    ensures
        conversations.len() == plan.unique_offsets.len(),
        conversations[c].turns.len() == plan.unique_offsets[c].len(),
        prefix_turn_of(tokenizer, plan, c, t) == Ok::<TurnView, BenchErrorView>(
            conversations[c].turns[t],
        ),
{
    let all = |i: int| prefix_conversation_of(tokenizer, plan, i);
    law_collected_keeps_order(all, plan.unique_offsets.len());
    assert(all(c) == Ok::<ConversationView, BenchErrorView>(conversations[c]));
    let turns = |i: int| prefix_turn_of(tokenizer, plan, c, i);
    law_collected_keeps_order(turns, plan.unique_offsets[c].len());
    assert(turns(t) == Ok::<TurnView, BenchErrorView>(conversations[c].turns[t]));
}

/// All turns of all conversations begin with the shared and the global prefix, and the turns of
/// one conversation go on with its own prefix.
pub proof fn law_turns_share_prefixes(
    tokenizer: TokenizerModel,
    plan: PrefixPlanView,
    c: int,
    t: int,
    turn: TurnView,
)
    requires
        prefix_turn_of(tokenizer, plan, c, t) == Ok::<TurnView, BenchErrorView>(turn),
    ensures
        (plan.shared_prefix_text + plan.global_text).is_prefix_of(turn.user_message),
        plan.prefix(c).is_prefix_of(turn.user_message),
{
    let general = plan.shared_prefix_text + plan.global_text;
    assert(turn.user_message.take(general.len() as int) =~= general);
}

/// Every message of every generated conversation with shared prefixes begins with the shared and
/// the global prefix, and goes on with the conversation's own.
pub proof fn law_generated_conversations_share_prefixes(
    tokenizer: TokenizerModel,
    cfg: &MultiTurnRandomConfig,
    sharing: PrefixSharingConfig,
    plan: PrefixPlanView,
    conversations: Seq<ConversationView>,
)
    requires
        prefix_plan_of(tokenizer, cfg, sharing) == Ok::<PrefixPlanView, BenchErrorView>(plan),
        prefix_generated(tokenizer, cfg, sharing) == Ok::<Seq<ConversationView>, BenchErrorView>(
            conversations,
        ),
    ensures
        forall|c: int, t: int|
            #![trigger conversations[c].turns[t]]
            plan.has_turn(c, t) ==> {
                let message = conversations[c].turns[t].user_message;
                &&& (plan.shared_prefix_text + plan.global_text).is_prefix_of(message)
                &&& plan.prefix(c).is_prefix_of(message)
            },
{
    assert forall|c: int, t: int|
        #![trigger conversations[c].turns[t]]
        plan.has_turn(c, t) implies {
        let message = conversations[c].turns[t].user_message;
        &&& (plan.shared_prefix_text + plan.global_text).is_prefix_of(message)
        &&& plan.prefix(c).is_prefix_of(message)
    } by {
        law_generated_prefix_turns(tokenizer, cfg, sharing, plan, conversations, c, t);
        law_turns_share_prefixes(tokenizer, plan, c, t, conversations[c].turns[t]);
    }
}

/// The shared parts do not depend on the length of later turns.
pub proof fn law_prefixes_do_not_depend_on_later_turns(
    tokenizer: TokenizerModel,
    cfg: MultiTurnRandomConfig,
    sharing: PrefixSharingConfig,
    per_turn_input_len: usize,
    plan: PrefixPlanView,
    other: PrefixPlanView,
)
    requires
        prefix_plan_of(tokenizer, &cfg, sharing) == Ok::<PrefixPlanView, BenchErrorView>(plan),
        prefix_plan_of(
            tokenizer,
            &(MultiTurnRandomConfig { per_turn_input_len, ..cfg }),
            sharing,
        ) == Ok::<PrefixPlanView, BenchErrorView>(other),
    ensures
        forall|c: int| #[trigger] plan.prefix(c) == other.prefix(c),
        plan.unique_len == other.unique_len,
        plan.unique_offsets == other.unique_offsets,
{
}

/// With an exact tokenizer and no allowed token twice, token sequences that start at different
/// allowed tokens have different texts.
pub proof fn law_different_starts_give_different_texts(
    tokenizer: TokenizerModel,
    start: int,
    len: nat,
    other_start: int,
    other_len: nat,
    max_len: nat,
)
    requires
        tokenizer.exact(max_len),
        tokenizer.allowed_tokens.len() > 0,
        tokenizer.allowed_tokens.no_duplicates(),
        0 < len <= max_len,
        0 < other_len <= max_len,
        start % (tokenizer.allowed_tokens.len() as int) != other_start % (
        tokenizer.allowed_tokens.len() as int),
    ensures
        suffix_of(tokenizer, start, len) matches Ok((text, _)) && suffix_of(
            tokenizer,
            other_start,
            other_len,
        ) matches Ok((other_text, _)) && text != other_text,
{
    let allowed = tokenizer.allowed_tokens;
    lemma_exact_suffix(tokenizer, start, len, max_len);
    lemma_exact_suffix(tokenizer, other_start, other_len, max_len);
    assert(token_seq(allowed, start, len)[0] == allowed[start % (allowed.len() as int)]);
    assert(token_seq(allowed, other_start, other_len)[0] == allowed[other_start % (
    allowed.len() as int)]);
}

/// With an exact tokenizer and no allowed token twice, the turns of a conversation with shared
/// prefixes differ where they have tokens of their own that start at different places.
pub proof fn law_turns_of_a_conversation_differ(
    tokenizer: TokenizerModel,
    plan: PrefixPlanView,
    c: int,
    t: int,
    other_t: int,
    turn: TurnView,
    other: TurnView,
    max_len: nat,
)
    requires
        tokenizer.exact(max_len),
        tokenizer.allowed_tokens.len() > 0,
        tokenizer.allowed_tokens.no_duplicates(),
        0 < plan.own_len(t) <= max_len,
        0 < plan.own_len(other_t) <= max_len,
        plan.start(c, t) % (tokenizer.allowed_tokens.len() as int) != plan.start(c, other_t) % (
        tokenizer.allowed_tokens.len() as int),
        prefix_turn_of(tokenizer, plan, c, t) == Ok::<TurnView, BenchErrorView>(turn),
        prefix_turn_of(tokenizer, plan, c, other_t) == Ok::<TurnView, BenchErrorView>(other),
    ensures
        turn.user_message != other.user_message,
{
    law_different_starts_give_different_texts(
        tokenizer,
        plan.start(c, t),
        plan.own_len(t) as nat,
        plan.start(c, other_t),
        plan.own_len(other_t) as nat,
        max_len,
    );
    let from = plan.prefix(c).len() as int;
    let text = suffix_of(tokenizer, plan.start(c, t), plan.own_len(t) as nat)->Ok_0.0;
    let other_text = suffix_of(
        tokenizer,
        plan.start(c, other_t),
        plan.own_len(other_t) as nat,
    )->Ok_0.0;
    assert(turn.user_message.skip(from) =~= text);
    assert(other.user_message.skip(from) =~= other_text);
}

/// With an exact tokenizer and no allowed token twice, conversations without a cached part begin
/// differently where their tokens start at different places.
pub proof fn law_cold_conversations_differ(
    tokenizer: TokenizerModel,
    plan: PlanView,
    c: int,
    other_c: int,
    turn: TurnView,
    other: TurnView,
    max_len: nat,
)
    requires
        tokenizer.exact(max_len),
        tokenizer.allowed_tokens.len() > 0,
        tokenizer.allowed_tokens.no_duplicates(),
        plan.cached_len(c, 0) == 0,
        plan.cached_len(other_c, 0) == 0,
        0 < plan.target_len(c, 0) <= max_len,
        0 < plan.target_len(other_c, 0) <= max_len,
        plan.start(c, 0) % (tokenizer.allowed_tokens.len() as int) != plan.start(other_c, 0) % (
        tokenizer.allowed_tokens.len() as int),
        turn_of(tokenizer, plan, c, 0) == Ok::<TurnView, BenchErrorView>(turn),
        turn_of(tokenizer, plan, other_c, 0) == Ok::<TurnView, BenchErrorView>(other),
    ensures
        turn.user_message != other.user_message,
{
    law_different_starts_give_different_texts(
        tokenizer,
        plan.start(c, 0),
        plan.target_len(c, 0) as nat,
        plan.start(other_c, 0),
        plan.target_len(other_c, 0) as nat,
        max_len,
    );
    let from = plan.shared_prefix_text.len() as int;
    let text = suffix_of(tokenizer, plan.start(c, 0), plan.target_len(c, 0) as nat)->Ok_0.0;
    let other_text = suffix_of(
        tokenizer,
        plan.start(other_c, 0),
        plan.target_len(other_c, 0) as nat,
    )->Ok_0.0;
    assert(turn.user_message.skip(from) =~= text);
    assert(other.user_message.skip(from) =~= other_text);
}

/// With an exact tokenizer no tokens are no text.
proof fn lemma_exact_empty(tokenizer: TokenizerModel, max_len: nat)
    requires
        tokenizer.exact(max_len),
    ensures
        tokenizer.decoded(Seq::empty(), true) == Ok::<Seq<char>, BenchErrorView>(Seq::empty()),
{
    let none = Seq::<u32>::empty();
    let text = tokenizer.decoded(none, true)->Ok_0;
    assert(none + none =~= none);
    assert(tokenizer.decoded(none + none, true)->Ok_0 == text + text);
    assert(text.len() == text.len() + text.len());
    assert(text =~= Seq::<char>::empty());
}

/// With an exact tokenizer a token sequence is a prompt as it is.
proof fn lemma_exact_suffix(
    tokenizer: TokenizerModel,
    start: int,
    len: nat,
    max_len: nat,
)
    requires
        tokenizer.exact(max_len),
        len <= max_len,
    ensures
        suffix_of(tokenizer, start, len) == Ok::<(Seq<char>, Seq<u32>), BenchErrorView>(
            (
                tokenizer.decoded(token_seq(tokenizer.allowed_tokens, start, len), true)->Ok_0,
                token_seq(tokenizer.allowed_tokens, start, len),
            ),
        ),
{
    let tokens = token_seq(tokenizer.allowed_tokens, start, len);
    let text = tokenizer.decoded(tokens, true)->Ok_0;
    if len > 0 {
        law_stable_tokens_are_kept(tokenizer, tokens, text);
    } else {
        assert(tokens =~= Seq::<u32>::empty());
        lemma_exact_empty(tokenizer, max_len);
    }
}

/// There are as many turn counts as conversations, and all lie within the bounds.
pub proof fn law_turn_counts_lie_within_bounds(
    words: Map<nat, u32>,
    min: usize,
    max: usize,
    n: nat,
)
    ensures
        turn_counts(words, min, max, n).0.len() == n,
        min <= max ==> forall|i: int|
            0 <= i < n ==> min <= #[trigger] turn_counts(words, min, max, n).0[i] <= max,
{
    law_draws_lie_in_range(words, min, max, n);
}

/// There are places for every conversation.
proof fn lemma_prefix_draws_len(
    allowed_len: nat,
    vocab_size: u32,
    cfg: &MultiTurnRandomConfig,
    sharing: PrefixSharingConfig,
)
    ensures
        prefix_draws(allowed_len, vocab_size, cfg, sharing).conv_offsets.len()
            == cfg.num_conversations,
        prefix_draws(allowed_len, vocab_size, cfg, sharing).unique_offsets.len()
            == cfg.num_conversations,
{
    let words = seeded_words(cfg.seed);
    let n = cfg.num_conversations as nat;
    let after_global = if sharing.global_len > 0 {
        next_in(words, 0, last_index(allowed_len)).1
    } else {
        words
    };
    law_draws_lie_in_range(after_global, 0, last_index(allowed_len), n);
    let after_convs = if sharing.conversation_len > 0 {
        next_many(after_global, 0, last_index(allowed_len), n).1
    } else {
        after_global
    };
    law_turn_counts_lie_within_bounds(after_convs, cfg.min_turns, cfg.max_turns, n);
    let (counts, after_counts) = turn_counts(after_convs, cfg.min_turns, cfg.max_turns, n);
    law_rows_lie_in_range(after_counts, 0, last_index(vocab_size as nat), counts);
}

/// With an exact tokenizer the shared prefix is the text of as many tokens as were asked for.
proof fn lemma_exact_shared_prefix(
    tokenizer: TokenizerModel,
    prefix_len: usize,
    seed: u64,
    max_len: nat,
) -> (tokens: Seq<u32>)
    requires
        tokenizer.exact(max_len),
        prefix_len <= max_len,
    ensures
        tokens.len() == prefix_len,
        shared_prefix_of(tokenizer, prefix_len, seed) == tokenizer.decoded(tokens, true),
{
    if prefix_len == 0 {
        lemma_exact_empty(tokenizer, max_len);
        Seq::empty()
    } else {
        let words = seeded_words(seed.wrapping_add(0xDEAD));
        let tokens = drawn_tokens(words, tokenizer.allowed_tokens, prefix_len as nat);
        law_draws_lie_in_range(
            words,
            0,
            last_index(tokenizer.allowed_tokens.len()),
            prefix_len as nat,
        );
        law_stable_tokens_are_kept(tokenizer, tokens, tokenizer.decoded(tokens, true)->Ok_0);
        tokens
    }
}

/// With a lossless tokenizer the shared prefix encodes to as many tokens as were asked for, all
/// of them allowed, and a shorter one, for the same seed, to the first of these. No prefix at all
/// is the empty text, which must encode to nothing.
pub proof fn law_shorter_shared_prefix_is_a_start(
    tokenizer: TokenizerModel,
    prefix_len: usize,
    longer_len: usize,
    seed: u64,
)
    requires
        tokenizer.lossless(longer_len as nat),
        0 < tokenizer.allowed_tokens.len() <= usize::MAX,
        prefix_len <= longer_len,
        prefix_len == 0 ==> tokenizer.encoded(Seq::empty(), false) == Ok::<
            Seq<u32>,
            BenchErrorView,
        >(Seq::empty()),
    ensures
        shared_prefix_of(tokenizer, prefix_len, seed) matches Ok(text) && shared_prefix_of(
            tokenizer,
            longer_len,
            seed,
        ) matches Ok(longer_text) && tokenizer.encoded(longer_text, false) matches Ok(tokens) && {
            &&& tokens.len() == longer_len
            &&& forall|i: int|
                0 <= i < longer_len ==> tokenizer.allowed_tokens.contains(#[trigger] tokens[i])
            &&& tokenizer.encoded(text, false) == Ok::<Seq<u32>, BenchErrorView>(
                tokens.take(prefix_len as int),
            )
        },
{
    let words = seeded_words(seed.wrapping_add(0xDEAD));
    let allowed = tokenizer.allowed_tokens;
    let tokens = drawn_tokens(words, allowed, prefix_len as nat);
    let longer = drawn_tokens(words, allowed, longer_len as nat);
    law_drawn_tokens_are_allowed(words, allowed, prefix_len as nat);
    law_drawn_tokens_are_allowed(words, allowed, longer_len as nat);
    law_drawn_tokens_go_on(words, allowed, prefix_len as nat, longer_len as nat);
    assert(tokenizer.decoded(tokens, true) is Ok);
    assert(tokenizer.decoded(longer, true) is Ok);
    if prefix_len == 0 {
        assert(longer.take(0) =~= Seq::<u32>::empty());
    } else {
        law_stable_tokens_are_kept(tokenizer, tokens, tokenizer.decoded(tokens, true)->Ok_0);
    }
    if longer_len == 0 {
        assert(longer =~= Seq::<u32>::empty());
    } else {
        law_stable_tokens_are_kept(tokenizer, longer, tokenizer.decoded(longer, true)->Ok_0);
    }
}

/// With an exact tokenizer the text of a shorter shared prefix is the start of that of a longer
/// one, for the same seed.
pub proof fn law_shorter_shared_text_is_a_start(
    tokenizer: TokenizerModel,
    prefix_len: usize,
    longer_len: usize,
    seed: u64,
)
    requires
        tokenizer.exact(longer_len as nat),
        0 < tokenizer.allowed_tokens.len() <= usize::MAX,
        prefix_len <= longer_len,
    ensures
        shared_prefix_of(tokenizer, prefix_len, seed) matches Ok(text) && shared_prefix_of(
            tokenizer,
            longer_len,
            seed,
        ) matches Ok(longer_text) && text.is_prefix_of(longer_text),
{
    let words = seeded_words(seed.wrapping_add(0xDEAD));
    let allowed = tokenizer.allowed_tokens;
    let tokens = drawn_tokens(words, allowed, prefix_len as nat);
    let longer = drawn_tokens(words, allowed, longer_len as nat);
    lemma_exact_empty(tokenizer, longer_len as nat);
    law_shorter_shared_prefix_is_a_start(tokenizer, prefix_len, longer_len, seed);
    law_drawn_tokens_are_allowed(words, allowed, longer_len as nat);
    law_drawn_tokens_go_on(words, allowed, prefix_len as nat, longer_len as nat);
    if prefix_len > 0 {
        law_drawn_tokens_are_allowed(words, allowed, prefix_len as nat);
        law_stable_tokens_are_kept(tokenizer, tokens, tokenizer.decoded(tokens, true)->Ok_0);
        law_stable_tokens_are_kept(tokenizer, longer, tokenizer.decoded(longer, true)->Ok_0);
        law_exact_slices_are_prefixes(
            tokenizer,
            longer,
            prefix_len as int,
            longer_len as int,
        );
        assert(longer.take(longer_len as int) =~= longer);
    }
}

/// Where one token is allowed, the shared prefix is what a prompt of that token alone gives, for
/// every seed.
pub proof fn law_one_allowed_token_makes_the_shared_prefix(
    tokenizer: TokenizerModel,
    token: u32,
    prefix_len: usize,
    seed: u64,
)
    requires
        tokenizer.allowed_tokens == seq![token],
        prefix_len > 0,
    ensures
        shared_prefix_of(tokenizer, prefix_len, seed) == text_part(
            prompt_of(tokenizer, Seq::new(prefix_len as nat, |i: int| token), prefix_len as nat),
        ),
{
    law_one_allowed_token_is_drawn(
        seeded_words(seed.wrapping_add(0xDEAD)),
        token,
        prefix_len as nat,
    );
}

/// With an exact tokenizer every turn has exactly the length that it is to have, whether or not
/// a part of it is cached, and on top of it the length of the shared prefix where that goes
/// before it.
pub proof fn law_exact_turn_length(
    tokenizer: TokenizerModel,
    cfg: &MultiTurnRandomConfig,
    plan: PlanView,
    c: int,
    t: int,
)
    requires
        plan_of(tokenizer, cfg) == Ok::<PlanView, BenchErrorView>(plan),
        plan.fits(),
        plan.has_turn(c, t),
        plan.target_len(c, t) + cfg.turn_prefix_len(t) <= usize::MAX,
        tokenizer.exact((plan.target_len(c, t) + cfg.turn_prefix_len(t)) as nat),
    ensures
        turn_of(tokenizer, plan, c, t) matches Ok(turn) && turn.user_message_len
            == plan.target_len(c, t) + cfg.turn_prefix_len(t),
{
    let max_len = (plan.target_len(c, t) + cfg.turn_prefix_len(t)) as nat;
    let start = plan.start(c, t);
    let len = plan.suffix_len(c, t);
    lemma_exact_suffix(tokenizer, start, len, max_len);
    let tokens = token_seq(tokenizer.allowed_tokens, start, len);
    lemma_exact_empty(tokenizer, max_len);
    if plan.cached_len(c, t) > 0 {
        let cached = plan.base_tokens.take(plan.cached_len(c, t) as int);
        assert(tokenizer.decoded(cached + tokens, true)->Ok_0 == tokenizer.decoded(
            cached,
            true,
        )->Ok_0 + tokenizer.decoded(tokens, true)->Ok_0);
        assert((cached + tokens).len() == plan.target_len(c, t));
    } else if t == 0 {
        let prefix_tokens = lemma_exact_shared_prefix(
            tokenizer,
            cfg.turn_prefix_len(0),
            cfg.seed,
            max_len,
        );
        assert(tokenizer.decoded(prefix_tokens + tokens, true)->Ok_0 == plan.shared_prefix_text
            + tokenizer.decoded(tokens, true)->Ok_0);
        assert((prefix_tokens + tokens).len() == max_len);
        if plan.shared_prefix_text.len() == 0 {
            // A prefix without text has no tokens, for it encodes as the empty text does.
            assert(plan.shared_prefix_text =~= Seq::<char>::empty());
            assert(tokenizer.decoded(prefix_tokens, true)->Ok_0 =~= Seq::<char>::empty());
            assert(prefix_tokens =~= Seq::<u32>::empty());
        }
    }
}

/// With an exact tokenizer, a turn with shared prefixes has exactly the length that it is to
/// have: that of the shared prefix, and the input length that was asked for, or that of the
/// global and the conversation's prefix where these alone are longer.
pub proof fn law_exact_prefix_turn_length(
    tokenizer: TokenizerModel,
    cfg: &MultiTurnRandomConfig,
    sharing: PrefixSharingConfig,
    plan: PrefixPlanView,
    c: int,
    t: int,
    input_len: usize,
    per_turn_len: usize,
)
    requires
        checked_prefix_lens(tokenizer.num_special_tokens, cfg, sharing) == Ok::<
            (usize, usize),
            BenchErrorView,
        >((input_len, per_turn_len)),
        prefix_plan_of(tokenizer, cfg, sharing) == Ok::<PrefixPlanView, BenchErrorView>(plan),
        plan.has_turn(c, t),
        cfg.prefix_len + sharing.turn_len(input_len, per_turn_len, t) <= usize::MAX,
        tokenizer.exact((cfg.prefix_len + sharing.turn_len(input_len, per_turn_len, t)) as nat),
    ensures
        prefix_turn_of(tokenizer, plan, c, t) matches Ok(turn) && turn.user_message_len
            == cfg.prefix_len + sharing.turn_len(input_len, per_turn_len, t),
{
    let max_len = (cfg.prefix_len + sharing.turn_len(input_len, per_turn_len, t)) as nat;
    let allowed = tokenizer.allowed_tokens;
    let draws = prefix_draws(allowed.len(), tokenizer.vocab_size, cfg, sharing);
    let global_len = sharing.global_len as nat;
    let conv_len = sharing.conversation_len as nat;
    lemma_prefix_draws_len(allowed.len(), tokenizer.vocab_size, cfg, sharing);
    let prefix_tokens = lemma_exact_shared_prefix(tokenizer, cfg.prefix_len, cfg.seed, max_len);
    lemma_exact_suffix(tokenizer, draws.global_offset as int, global_len, max_len);
    let global_tokens = token_seq(allowed, draws.global_offset as int, global_len);
    let conv_text = |i: int|
        text_part(suffix_of(tokenizer, draws.conv_offsets[i] + i, conv_len));
    law_collected_keeps_order(conv_text, draws.conv_offsets.len());
    assert(conv_text(c) == Ok::<Seq<char>, BenchErrorView>(plan.conv_texts[c]));
    lemma_exact_suffix(tokenizer, draws.conv_offsets[c] + c, conv_len, max_len);
    let conv_tokens = token_seq(allowed, draws.conv_offsets[c] + c, conv_len);
    lemma_exact_suffix(tokenizer, plan.start(c, t), plan.own_len(t) as nat, max_len);
    let own_tokens = token_seq(allowed, plan.start(c, t), plan.own_len(t) as nat);
    let front = prefix_tokens + global_tokens;
    let prefix = front + conv_tokens;
    let whole = prefix + own_tokens;
    assert(tokenizer.decoded(front, true)->Ok_0 == plan.shared_prefix_text + plan.global_text);
    assert(tokenizer.decoded(prefix, true)->Ok_0 == plan.prefix(c));
    assert(tokenizer.decoded(whole, true)->Ok_0 == plan.prefix(c) + tokenizer.decoded(
        own_tokens,
        true,
    )->Ok_0);
}

/// The parts of a plan agree, its numbers are within machine limits, and every turn is to have a
/// length that was asked for.
pub proof fn law_plans_fit(
    tokenizer: TokenizerModel,
    cfg: &MultiTurnRandomConfig,
    input_len: usize,
    per_turn_len: usize,
    plan: PlanView,
)
    requires
        checked_setup(tokenizer.allowed_tokens, tokenizer.num_special_tokens, cfg) == Ok::<
            (usize, usize),
            BenchErrorView,
        >((input_len, per_turn_len)),
        cfg.plannable(tokenizer.vocab_size, input_len, per_turn_len),
        plan_of(tokenizer, cfg) == Ok::<PlanView, BenchErrorView>(plan),
    ensures
        plan.fits(),
        plan.offsets.len() == cfg.num_conversations,
        forall|c: int|
            0 <= c < cfg.num_conversations ==> cfg.min_turns <= (
            #[trigger] plan.offsets[c]).len() <= cfg.max_turns,
        forall|c: int, t: int|
            #![trigger plan.target_len(c, t)]
            plan.has_turn(c, t) ==> cfg.is_turn_len(
                input_len,
                per_turn_len,
                t,
                plan.target_len(c, t),
            ),
{
    let n = cfg.num_conversations as nat;
    let words = seeded_words(cfg.seed);
    let last = last_index(tokenizer.vocab_size as nat);
    let (counts, rest) = turn_counts(words, cfg.min_turns, cfg.max_turns, n);
    law_turn_counts_lie_within_bounds(words, cfg.min_turns, cfg.max_turns, n);
    law_rows_lie_in_range(rest, 0, last, counts);
    if let Some(range) = cfg.turn_range {
        law_len_rows_lie_within_bounds(
            seeded_words(cfg.seed.wrapping_add(0xBEEF)),
            range.first,
            range.later,
            counts,
        );
    }
    lemma_next_choices_len(
        seeded_words(cfg.seed.wrapping_add(0xF00D)),
        cfg.cache_hit_fraction,
        n,
    );
    law_prompt_is_not_too_long(
        tokenizer,
        drawn_tokens(
            seeded_words(cfg.seed.wrapping_add(0xCACE)),
            tokenizer.allowed_tokens,
            cfg.cache_base_len as nat,
        ),
        cfg.cache_base_len as nat,
        0,
    );
    assert forall|c: int, t: int|
        #![trigger plan.target_len(c, t)]
        plan.has_turn(c, t) implies cfg.is_turn_len(
        input_len,
        per_turn_len,
        t,
        plan.target_len(c, t),
    ) by {
        assert(plan.offsets[c].len() == counts[c]);
        if let Some(range) = cfg.turn_range {
            assert(plan.turn_lens->0[c][t] <= longest(bounds_of(range.first, range.later, t)));
        }
    }
    assert forall|c: int, t: int|
        #![trigger plan.start(c, t)]
        plan.has_turn(c, t) implies plan.target_len(c, t) <= usize::MAX / 2 && plan.start(c, t)
        + plan.target_len(c, t) <= usize::MAX by {
        assert(plan.offsets[c].len() == counts[c]);
        assert(cfg.is_turn_len(input_len, per_turn_len, t, plan.target_len(c, t)));
        assert(0 <= plan.offsets[c][t] <= last);
        lemma_start_fits(
            plan.offsets[c][t] as int,
            c,
            t,
            tokenizer.vocab_size as int,
            cfg.num_conversations as int,
            cfg.max_turns as int,
            plan.target_len(c, t) as int,
        );
    }
    assert forall|c: int| 0 <= c < cfg.num_conversations implies cfg.min_turns <= (
    #[trigger] plan.offsets[c]).len() <= cfg.max_turns by {
        assert(plan.offsets[c].len() == counts[c]);
    }
    assert forall|c: int|
        #![trigger plan.target_len(c, 0)]
        plan.has_turn(c, 0) && plan.warm is Some implies plan.target_len(c, 0)
        < plan.cached_lens.len() by {
        assert(cfg.is_turn_len(input_len, per_turn_len, 0, plan.target_len(c, 0)));
    }
    if let Some(lens) = plan.turn_lens {
        assert forall|c: int| 0 <= c < lens.len() implies (#[trigger] lens[c]).len()
            == plan.offsets[c].len() by {
            assert(plan.offsets[c].len() == counts[c]);
        }
    }
}

/// As many choices are drawn as were asked for.
proof fn lemma_next_choices_len(words: Map<nat, u32>, threshold: u64, n: nat)
    ensures
        next_choices(words, threshold, n).0.len() == n,
    decreases n,
{
    if n > 0 {
        lemma_next_choices_len(words, threshold, (n - 1) as nat);
    }
}

/// With a tokenizer that is exact for all tokens that are needed, random conversations can be
/// planned.
proof fn lemma_exact_plan(
    tokenizer: TokenizerModel,
    cfg: &MultiTurnRandomConfig,
    input_len: usize,
    per_turn_len: usize,
)
    requires
        cfg.prefix_sharing_config is None,
        refusal(tokenizer.allowed_tokens, tokenizer.num_special_tokens, cfg) is None,
        checked_setup(tokenizer.allowed_tokens, tokenizer.num_special_tokens, cfg) == Ok::<
            (usize, usize),
            BenchErrorView,
        >((input_len, per_turn_len)),
        tokenizer.exact(longest_message(cfg, input_len, per_turn_len)),
    ensures
        plan_of(tokenizer, cfg) is Ok,
{
    let max_len = longest_message(cfg, input_len, per_turn_len);
    let prefix_len = if cfg.is_bimodal() {
        0
    } else {
        cfg.prefix_len
    };
    let _ = lemma_exact_shared_prefix(tokenizer, prefix_len, cfg.seed, max_len);
    if cfg.is_bimodal() && cfg.cache_base_len > 0 {
        let words = seeded_words(cfg.seed.wrapping_add(0xCACE));
        let n = cfg.cache_base_len as nat;
        let tokens = drawn_tokens(words, tokenizer.allowed_tokens, n);
        law_draws_lie_in_range(words, 0, last_index(tokenizer.allowed_tokens.len()), n);
        law_stable_tokens_are_kept(tokenizer, tokens, tokenizer.decoded(tokens, true)->Ok_0);
    }
}

/// With a tokenizer that is exact for all tokens that are needed, random conversations are made,
/// and every message has the length that was asked for.
pub proof fn law_exact_conversations(
    tokenizer: TokenizerModel,
    cfg: &MultiTurnRandomConfig,
    input_len: usize,
    per_turn_len: usize,
)
    requires
        cfg.prefix_sharing_config is None,
        refusal(tokenizer.allowed_tokens, tokenizer.num_special_tokens, cfg) is None,
        checked_setup(tokenizer.allowed_tokens, tokenizer.num_special_tokens, cfg) == Ok::<
            (usize, usize),
            BenchErrorView,
        >((input_len, per_turn_len)),
        cfg.plannable(tokenizer.vocab_size, input_len, per_turn_len),
        tokenizer.exact(longest_message(cfg, input_len, per_turn_len)),
    ensures
        generated(tokenizer, cfg) matches Ok(conversations) && has_message_lens(
            conversations,
            cfg,
            input_len,
            per_turn_len,
        ),
{
    lemma_exact_plan(tokenizer, cfg, input_len, per_turn_len);
    let plan = plan_of(tokenizer, cfg)->Ok_0;
    law_plans_fit(tokenizer, cfg, input_len, per_turn_len, plan);
    let n = plan.offsets.len();
    let all = |c: int| conversation_of(tokenizer, plan, c);
    assert forall|c: int| 0 <= c < n implies (#[trigger] all(c)) is Ok by {
        let turns = |t: int| turn_of(tokenizer, plan, c, t);
        assert forall|t: int| 0 <= t < plan.offsets[c].len() implies (
        #[trigger] turns(t)) is Ok by {
            assert(cfg.is_turn_len(input_len, per_turn_len, t, plan.target_len(c, t)));
            law_exact_turn_length(tokenizer, cfg, plan, c, t);
        }
        law_collected_succeeds(turns, plan.offsets[c].len());
    }
    law_collected_succeeds(all, n);
    law_collected_keeps_order(all, n);
    let conversations = generated(tokenizer, cfg)->Ok_0;
    assert forall|c: int, t: int|
        #![trigger conversations[c].turns[t]]
        0 <= c < conversations.len() && 0 <= t
            < conversations[c].turns.len() implies is_message_len(
        cfg,
        input_len,
        per_turn_len,
        t,
        conversations[c].turns[t].user_message_len,
    ) by {
        assert(all(c) == Ok::<ConversationView, BenchErrorView>(conversations[c]));
        law_collected_keeps_order(
            |i: int| turn_of(tokenizer, plan, c, i),
            plan.offsets[c].len(),
        );
        law_generated_turns(tokenizer, cfg, plan, conversations, c, t);
        assert(cfg.is_turn_len(input_len, per_turn_len, t, plan.target_len(c, t)));
        law_exact_turn_length(tokenizer, cfg, plan, c, t);
    }
}

/// With a tokenizer that is exact for all tokens that are needed, conversations with shared
/// prefixes can be planned.
proof fn lemma_exact_prefix_plan(
    tokenizer: TokenizerModel,
    cfg: &MultiTurnRandomConfig,
    sharing: PrefixSharingConfig,
    input_len: usize,
    per_turn_len: usize,
)
    requires
        cfg.prefix_sharing_config == Some(sharing),
        checked_prefix_lens(tokenizer.num_special_tokens, cfg, sharing) == Ok::<
            (usize, usize),
            BenchErrorView,
        >((input_len, per_turn_len)),
        tokenizer.exact(longest_message(cfg, input_len, per_turn_len)),
    ensures
        prefix_plan_of(tokenizer, cfg, sharing) is Ok,
{
    let max_len = longest_message(cfg, input_len, per_turn_len);
    let allowed = tokenizer.allowed_tokens;
    let draws = prefix_draws(allowed.len(), tokenizer.vocab_size, cfg, sharing);
    let global_len = sharing.global_len as nat;
    let conv_len = sharing.conversation_len as nat;
    let _ = lemma_exact_shared_prefix(tokenizer, cfg.prefix_len, cfg.seed, max_len);
    lemma_exact_suffix(tokenizer, draws.global_offset as int, global_len, max_len);
    let conv_text = |i: int| text_part(suffix_of(tokenizer, draws.conv_offsets[i] + i, conv_len));
    assert forall|i: int| 0 <= i < draws.conv_offsets.len() implies (
    #[trigger] conv_text(i)) is Ok by {
        lemma_exact_suffix(tokenizer, draws.conv_offsets[i] + i, conv_len, max_len);
    }
    law_collected_succeeds(conv_text, draws.conv_offsets.len());
}

/// With a tokenizer that is exact for all tokens that are needed, conversations with shared
/// prefixes are made, and every message has the length that was asked for.
pub proof fn law_exact_prefix_conversations(
    tokenizer: TokenizerModel,
    cfg: &MultiTurnRandomConfig,
    sharing: PrefixSharingConfig,
    input_len: usize,
    per_turn_len: usize,
)
    requires
        cfg.prefix_sharing_config == Some(sharing),
        checked_prefix_lens(tokenizer.num_special_tokens, cfg, sharing) == Ok::<
            (usize, usize),
            BenchErrorView,
        >((input_len, per_turn_len)),
        longest_message(cfg, input_len, per_turn_len) <= usize::MAX,
        tokenizer.exact(longest_message(cfg, input_len, per_turn_len)),
    ensures
        prefix_generated(tokenizer, cfg, sharing) matches Ok(conversations) && has_message_lens(
            conversations,
            cfg,
            input_len,
            per_turn_len,
        ),
{
    lemma_exact_prefix_plan(tokenizer, cfg, sharing, input_len, per_turn_len);
    let plan = prefix_plan_of(tokenizer, cfg, sharing)->Ok_0;
    let n = plan.unique_offsets.len();
    let all = |c: int| prefix_conversation_of(tokenizer, plan, c);
    assert forall|c: int| 0 <= c < n implies (#[trigger] all(c)) is Ok by {
        let turns = |t: int| prefix_turn_of(tokenizer, plan, c, t);
        assert forall|t: int| 0 <= t < plan.unique_offsets[c].len() implies (
        #[trigger] turns(t)) is Ok by {
            law_exact_prefix_turn_length(
                tokenizer,
                cfg,
                sharing,
                plan,
                c,
                t,
                input_len,
                per_turn_len,
            );
        }
        law_collected_succeeds(turns, plan.unique_offsets[c].len());
    }
    law_collected_succeeds(all, n);
    law_collected_keeps_order(all, n);
    let conversations = prefix_generated(tokenizer, cfg, sharing)->Ok_0;
    assert forall|c: int, t: int|
        #![trigger conversations[c].turns[t]]
        0 <= c < conversations.len() && 0 <= t
            < conversations[c].turns.len() implies is_message_len(
        cfg,
        input_len,
        per_turn_len,
        t,
        conversations[c].turns[t].user_message_len,
    ) by {
        assert(all(c) == Ok::<ConversationView, BenchErrorView>(conversations[c]));
        law_collected_keeps_order(
            |i: int| prefix_turn_of(tokenizer, plan, c, i),
            plan.unique_offsets[c].len(),
        );
        law_generated_prefix_turns(tokenizer, cfg, sharing, plan, conversations, c, t);
        law_exact_prefix_turn_length(
            tokenizer,
            cfg,
            sharing,
            plan,
            c,
            t,
            input_len,
            per_turn_len,
        );
    }
}

/// The rows of fewer counts are the first rows of all.
proof fn lemma_fewer_rows(
    words: Map<nat, u32>,
    low: usize,
    high: usize,
    counts: Seq<usize>,
    n: nat,
)
    requires
        n <= counts.len(),
    ensures
        next_rows(words, low, high, counts.take(n as int)).0 == next_rows(
            words,
            low,
            high,
            counts,
        ).0.take(n as int),
    decreases counts.len(),
{
    let rows = next_rows(words, low, high, counts).0;
    law_rows_lie_in_range(words, low, high, counts);
    if n == counts.len() {
        assert(counts.take(n as int) =~= counts);
        assert(rows.take(n as int) =~= rows);
    } else {
        let before = counts.drop_last();
        lemma_fewer_rows(words, low, high, before, n);
        law_rows_lie_in_range(words, low, high, before);
        assert(counts.take(n as int) =~= before.take(n as int));
        assert(rows.take(n as int) =~= next_rows(words, low, high, before).0.take(n as int));
    }
}

/// The turn lengths of fewer conversations are the first of all.
proof fn lemma_fewer_len_rows(
    words: Map<nat, u32>,
    first: LengthBounds,
    later: LengthBounds,
    counts: Seq<usize>,
    n: nat,
)
    requires
        n <= counts.len(),
    ensures
        next_len_rows(words, first, later, counts.take(n as int)).0 == next_len_rows(
            words,
            first,
            later,
            counts,
        ).0.take(n as int),
    decreases counts.len(),
{
    let rows = next_len_rows(words, first, later, counts).0;
    law_len_rows_lie_within_bounds(words, first, later, counts);
    if n == counts.len() {
        assert(counts.take(n as int) =~= counts);
        assert(rows.take(n as int) =~= rows);
    } else {
        let before = counts.drop_last();
        lemma_fewer_len_rows(words, first, later, before, n);
        law_len_rows_lie_within_bounds(words, first, later, before);
        assert(counts.take(n as int) =~= before.take(n as int));
        assert(rows.take(n as int) =~= next_len_rows(words, first, later, before).0.take(
            n as int,
        ));
    }
}

/// Fewer choices are the first of more.
proof fn lemma_fewer_choices(words: Map<nat, u32>, threshold: u64, n: nat, m: nat)
    requires
        n <= m,
    ensures
        next_choices(words, threshold, n).0 == next_choices(words, threshold, m).0.take(n as int),
    decreases m,
{
    let choices = next_choices(words, threshold, m).0;
    lemma_next_choices_len(words, threshold, m);
    if n == m {
        assert(choices.take(n as int) =~= choices);
    } else {
        lemma_fewer_choices(words, threshold, n, (m - 1) as nat);
        lemma_next_choices_len(words, threshold, (m - 1) as nat);
        assert(choices.take(n as int) =~= next_choices(words, threshold, (m - 1) as nat).0.take(
            n as int,
        ));
    }
}

/// Without a choice of turn counts, asking for fewer conversations generates the first of those
/// that are generated otherwise.
pub proof fn law_fewer_generated_are_the_first(
    tokenizer: TokenizerModel,
    cfg: MultiTurnRandomConfig,
    fewer: usize,
    conversations: Seq<ConversationView>,
)
    requires
        cfg.prefix_sharing_config is None,
        cfg.min_turns == cfg.max_turns,
        fewer <= cfg.num_conversations,
        generated(tokenizer, &cfg) == Ok::<Seq<ConversationView>, BenchErrorView>(conversations),
    ensures
        generated(
            tokenizer,
            &(MultiTurnRandomConfig { num_conversations: fewer, ..cfg }),
        ) == Ok::<Seq<ConversationView>, BenchErrorView>(conversations.take(fewer as int)),
{
    let n = fewer as nat;
    let m = cfg.num_conversations as nat;
    let other = MultiTurnRandomConfig { num_conversations: fewer, ..cfg };
    let plan = plan_of(tokenizer, &cfg)->Ok_0;
    let words = seeded_words(cfg.seed);
    let counts = Seq::new(m, |i: int| cfg.min_turns);
    assert(counts.take(n as int) =~= Seq::new(n, |i: int| cfg.min_turns));
    let last = last_index(tokenizer.vocab_size as nat);
    lemma_fewer_rows(words, 0, last, counts, n);
    law_rows_lie_in_range(words, 0, last, counts);
    if let Some(range) = cfg.turn_range {
        let len_words = seeded_words(cfg.seed.wrapping_add(0xBEEF));
        lemma_fewer_len_rows(len_words, range.first, range.later, counts, n);
        law_len_rows_lie_within_bounds(len_words, range.first, range.later, counts);
    }
    let warm_words = seeded_words(cfg.seed.wrapping_add(0xF00D));
    lemma_fewer_choices(warm_words, cfg.cache_hit_fraction, n, m);
    lemma_next_choices_len(warm_words, cfg.cache_hit_fraction, m);
    assert(plan_of(tokenizer, &other) is Ok);
    let first = plan_of(tokenizer, &other)->Ok_0;
    assert(first.offsets =~= plan.offsets.take(n as int));
    let all = |c: int| conversation_of(tokenizer, plan, c);
    let few = |c: int| conversation_of(tokenizer, first, c);
    assert forall|c: int| 0 <= c < n implies #[trigger] few(c) == all(c) by {
        let turns = |t: int| turn_of(tokenizer, plan, c, t);
        let first_turns = |t: int| turn_of(tokenizer, first, c, t);
        assert forall|t: int| 0 <= t < plan.offsets[c].len() implies #[trigger] first_turns(t)
            == turns(t) by {
            assert(first.target_len(c, t) == plan.target_len(c, t));
            assert(first.cached_len(c, t) == plan.cached_len(c, t));
            assert(first.start(c, t) == plan.start(c, t));
        }
        law_collected_by_values(first_turns, turns, plan.offsets[c].len());
    }
    law_collected_by_values(few, all, n);
    law_collected_fewer(all, n, m);
}

/// Without a choice of turn counts and without prefixes of their own, asking for fewer
/// conversations with shared prefixes generates the first of those that are generated otherwise.
pub proof fn law_fewer_with_prefixes_are_the_first(
    tokenizer: TokenizerModel,
    cfg: MultiTurnRandomConfig,
    sharing: PrefixSharingConfig,
    fewer: usize,
    conversations: Seq<ConversationView>,
)
    requires
        sharing.conversation_len == 0,
        cfg.min_turns == cfg.max_turns,
        fewer <= cfg.num_conversations,
        prefix_generated(tokenizer, &cfg, sharing) == Ok::<Seq<ConversationView>, BenchErrorView>(
            conversations,
        ),
    ensures
        prefix_generated(
            tokenizer,
            &(MultiTurnRandomConfig { num_conversations: fewer, ..cfg }),
            sharing,
        ) == Ok::<Seq<ConversationView>, BenchErrorView>(conversations.take(fewer as int)),
{
    let n = fewer as nat;
    let m = cfg.num_conversations as nat;
    let other = MultiTurnRandomConfig { num_conversations: fewer, ..cfg };
    let plan = prefix_plan_of(tokenizer, &cfg, sharing)->Ok_0;
    let allowed_len = tokenizer.allowed_tokens.len();
    let draws = prefix_draws(allowed_len, tokenizer.vocab_size, &cfg, sharing);
    let few_draws = prefix_draws(allowed_len, tokenizer.vocab_size, &other, sharing);
    let words = if sharing.global_len > 0 {
        next_in(seeded_words(cfg.seed), 0, last_index(allowed_len)).1
    } else {
        seeded_words(cfg.seed)
    };
    let counts = Seq::new(m, |i: int| cfg.min_turns);
    assert(counts.take(n as int) =~= Seq::new(n, |i: int| cfg.min_turns));
    let last = last_index(tokenizer.vocab_size as nat);
    lemma_fewer_rows(words, 0, last, counts, n);
    law_rows_lie_in_range(words, 0, last, counts);
    assert(few_draws.unique_offsets == draws.unique_offsets.take(n as int));
    let text = |c: int| text_part(suffix_of(tokenizer, draws.conv_offsets[c] + c, 0));
    let few_text = |c: int| text_part(suffix_of(tokenizer, few_draws.conv_offsets[c] + c, 0));
    law_collected_by_values(few_text, text, n);
    law_collected_fewer(text, n, m);
    law_collected_keeps_order(text, m);
    assert(prefix_plan_of(tokenizer, &other, sharing) is Ok);
    let first = prefix_plan_of(tokenizer, &other, sharing)->Ok_0;
    let all = |c: int| prefix_conversation_of(tokenizer, plan, c);
    let few = |c: int| prefix_conversation_of(tokenizer, first, c);
    assert forall|c: int| 0 <= c < n implies #[trigger] few(c) == all(c) by {
        let turns = |t: int| prefix_turn_of(tokenizer, plan, c, t);
        let first_turns = |t: int| prefix_turn_of(tokenizer, first, c, t);
        assert(first.prefix(c) == plan.prefix(c));
        assert forall|t: int| 0 <= t < plan.unique_offsets[c].len() implies #[trigger] first_turns(
            t,
        ) == turns(t) by {
            assert(first.start(c, t) == plan.start(c, t));
        }
        law_collected_by_values(first_turns, turns, plan.unique_offsets[c].len());
    }
    law_collected_by_values(few, all, n);
    law_collected_fewer(all, n, m);
}

} // verus!
