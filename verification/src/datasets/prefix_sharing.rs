//! Conversations with 3-tier prefix sharing.
//!
//! Each turn's user message = [global_prefix][conversation_prefix][unique_suffix]. There is no
//! history accumulation: each turn sends only its own fixed-length message.
use std::sync::Arc;
use vstd::prelude::*;
use crate::datasets::config::{
    MultiTurnRandomConfig, PrefixSharingConfig, minus, real_input_len, real_lens,
    real_per_turn_len,
};
use crate::datasets::draws::{draw_turn_counts, last_index, turn_counts};
use crate::datasets::parts::{
    counted, generate_shared_prefix_text, laid_out, make_suffix, outlined, shared_prefix_of,
    suffix_of,
};
use crate::datasets::random_turns::lemma_start_fits;
use crate::datasets::{
    ConversationTurn, ConversationView, MultiTurnConversation, TurnView, conversation_id,
    conversations_result, conversations_view, id_of, shared_text, turns_view,
};
use crate::error::{
    BenchError, BenchErrorView, collected, law_collected_stops_at_first_error, result_view,
    stops_early,
};
use crate::rng::{
    draw_many, draw_range, draw_rows, next_in, next_many, next_rows, rows_view, seeded,
    seeded_words,
};
use crate::text::{append_decimal, decimal, texts_view};
use crate::tokenizer::{TokenizerKind, TokenizerModel};

verus! {

/// What is drawn for conversations with shared prefixes.
pub struct PrefixDraws {
    /// Where the tokens of the global prefix start.
    pub global_offset: usize,
    /// For each conversation, the drawn part of the place where its prefix's tokens start.
    pub conv_offsets: Vec<usize>,
    /// For each turn of each conversation, the drawn part of the place where its own tokens
    /// start.
    pub unique_offsets: Vec<Vec<usize>>,
}

/// The mathematical value of [`PrefixDraws`].
#[verifier::ext_equal]
pub struct PrefixDrawsView {
    pub global_offset: usize,
    pub conv_offsets: Seq<usize>,
    pub unique_offsets: Seq<Seq<usize>>,
}

impl View for PrefixDraws {
    type V = PrefixDrawsView;

    open spec fn view(&self) -> PrefixDrawsView {
        PrefixDrawsView {
            global_offset: self.global_offset,
            conv_offsets: self.conv_offsets@,
            unique_offsets: rows_view(self.unique_offsets@),
        }
    }
}

/// What is drawn for conversations with shared prefixes: a place for the global prefix if there
/// is one, a place for each conversation's prefix if there are any, then turn counts and the
/// places of the turns' own tokens.
pub open spec fn prefix_draws(
    allowed_len: nat,
    vocab_size: u32,
    cfg: &MultiTurnRandomConfig,
    sharing: PrefixSharingConfig,
) -> PrefixDrawsView {
    let words = seeded_words(cfg.seed);
    let n = cfg.num_conversations as nat;
    let (global_offset, after_global) = if sharing.global_len > 0 {
        next_in(words, 0, last_index(allowed_len))
    } else {
        (0, words)
    };
    let (conv_offsets, after_convs) = if sharing.conversation_len > 0 {
        next_many(after_global, 0, last_index(allowed_len), n)
    } else {
        (Seq::new(n, |i: int| 0usize), after_global)
    };
    let (counts, after_counts) = turn_counts(after_convs, cfg.min_turns, cfg.max_turns, n);
    PrefixDrawsView {
        global_offset,
        conv_offsets,
        unique_offsets: next_rows(after_counts, 0, last_index(vocab_size as nat), counts).0,
    }
}

/// Draws what conversations with shared prefixes need.
pub fn draw_prefixes(
    allowed_len: usize,
    vocab_size: u32,
    cfg: &MultiTurnRandomConfig,
    sharing: PrefixSharingConfig,
) -> (draws: PrefixDraws)
    requires
        allowed_len > 0,
        cfg.num_conversations > 0 ==> cfg.min_turns <= cfg.max_turns,
        cfg.num_conversations > 0 && cfg.max_turns > 0 ==> vocab_size > 0,
    ensures
        draws@ == prefix_draws(allowed_len as nat, vocab_size, cfg, sharing),
        draws.global_offset < allowed_len,
        draws.conv_offsets@.len() == cfg.num_conversations,
        forall|c: int|
            0 <= c < cfg.num_conversations ==> (#[trigger] draws.conv_offsets@[c]) < allowed_len,
        draws.unique_offsets@.len() == cfg.num_conversations,
        forall|c: int|
            0 <= c < cfg.num_conversations ==> cfg.min_turns <= (
            #[trigger] draws.unique_offsets@[c])@.len() <= cfg.max_turns,
        forall|c: int, t: int|
            0 <= c < cfg.num_conversations && 0 <= t < draws.unique_offsets@[c]@.len()
                ==> #[trigger] draws.unique_offsets@[c]@[t] < vocab_size,
{
    let mut rng = seeded(cfg.seed);
    let global_offset: usize = if sharing.global_len > 0 {
        draw_range(&mut rng, 0, allowed_len - 1)
    } else {
        0
    };
    let conv_offsets: Vec<usize> = if sharing.conversation_len > 0 {
        draw_many(&mut rng, 0, allowed_len - 1, cfg.num_conversations)
    } else {
        vec![0; cfg.num_conversations]
    };
    assert(sharing.conversation_len == 0 ==> conv_offsets@ =~= Seq::new(
        cfg.num_conversations as nat,
        |i: int| 0usize,
    ));
    let counts: Vec<usize> = draw_turn_counts(
        &mut rng,
        cfg.min_turns,
        cfg.max_turns,
        cfg.num_conversations,
    );
    let last: usize = if vocab_size == 0 {
        0
    } else {
        vocab_size as usize - 1
    };
    let unique_offsets: Vec<Vec<usize>> = draw_rows(&mut rng, 0, last, &counts);
    PrefixDraws { global_offset, conv_offsets, unique_offsets }
}

/// What conversations with shared prefixes are made from.
pub struct PrefixPlan {
    pub max_turns: usize,
    pub output_len: usize,
    pub request_id_prefix: String,
    /// How many tokens of turn 0 are its own.
    pub unique_len: usize,
    /// How many tokens of each later turn are its own.
    pub later_unique_len: usize,
    pub unique_offsets: Vec<Vec<usize>>,
    pub shared_prefix_text: Arc<str>,
    pub global_text: String,
    pub conv_texts: Vec<String>,
}

/// The mathematical value of a [`PrefixPlan`].
#[verifier::ext_equal]
pub struct PrefixPlanView {
    pub max_turns: usize,
    pub output_len: usize,
    pub request_id_prefix: Seq<char>,
    pub unique_len: usize,
    pub later_unique_len: usize,
    pub unique_offsets: Seq<Seq<usize>>,
    pub shared_prefix_text: Seq<char>,
    pub global_text: Seq<char>,
    pub conv_texts: Seq<Seq<char>>,
}

impl View for PrefixPlan {
    type V = PrefixPlanView;

    open spec fn view(&self) -> PrefixPlanView {
        PrefixPlanView {
            max_turns: self.max_turns,
            output_len: self.output_len,
            request_id_prefix: self.request_id_prefix@,
            unique_len: self.unique_len,
            later_unique_len: self.later_unique_len,
            unique_offsets: rows_view(self.unique_offsets@),
            shared_prefix_text: self.shared_prefix_text@,
            global_text: self.global_text@,
            conv_texts: texts_view(self.conv_texts@),
        }
    }
}

impl PrefixPlanView {
    /// Conversation `c` has a turn `t`.
    pub open spec fn has_turn(self, c: int, t: int) -> bool {
        0 <= c < self.unique_offsets.len() && 0 <= t < self.unique_offsets[c].len()
    }

    /// How many tokens of turn `t` are its own.
    pub open spec fn own_len(self, t: int) -> usize {
        if t == 0 {
            self.unique_len
        } else {
            self.later_unique_len
        }
    }

    /// Where the own tokens of turn `t` of conversation `c` start.
    pub open spec fn start(self, c: int, t: int) -> int {
        self.unique_offsets[c][t] + c * self.max_turns + t
    }

    /// The text that every turn of conversation `c` begins with.
    pub open spec fn prefix(self, c: int) -> Seq<char> {
        self.shared_prefix_text + self.global_text + self.conv_texts[c]
    }

    /// The parts of the plan agree, and its numbers are within machine limits.
    pub open spec fn fits(self) -> bool {
        &&& self.conv_texts.len() == self.unique_offsets.len()
        &&& forall|c: int, t: int|
            #![trigger self.start(c, t)]
            self.has_turn(c, t) ==> {
                &&& self.own_len(t) <= usize::MAX / 2
                &&& self.start(c, t) + self.own_len(t) <= usize::MAX
            }
    }
}

/// Turn `t` of conversation `c`: the shared prefixes, then the turn's own text.
pub open spec fn prefix_turn_of(
    tokenizer: TokenizerModel,
    plan: PrefixPlanView,
    c: int,
    t: int,
) -> Result<TurnView, BenchErrorView> {
    match suffix_of(tokenizer, plan.start(c, t), plan.own_len(t) as nat) {
        Err(error) => Err(error),
        Ok((text, _)) => match counted(tokenizer, plan.prefix(c) + text) {
            Err(error) => Err(error),
            Ok((message, len)) => Ok(
                TurnView {
                    user_message: message,
                    user_message_len: len,
                    expected_output_len: plan.output_len,
                },
            ),
        },
    }
}

/// `turn` is a turn of conversation `c`: it begins with the conversation's prefix and has the
/// wanted output length.
pub open spec fn prefixed(turn: TurnView, plan: PrefixPlanView, c: int) -> bool {
    &&& plan.prefix(c).is_prefix_of(turn.user_message)
    &&& turn.expected_output_len == plan.output_len
}

/// Makes turn `turn_idx` of conversation `conv_idx`.
///
/// The message is encoded again to count its tokens, for tokens may merge where the parts meet.
pub fn prefix_turn<D, E>(
    tokenizer: &TokenizerKind<D, E>,
    plan: &PrefixPlan,
    conv_idx: usize,
    turn_idx: usize,
) -> (result: Result<ConversationTurn, BenchError>) where
    D: Fn(&[u32], bool) -> Result<String, BenchError>,
    E: Fn(&str, bool) -> Result<Vec<u32>, BenchError>,

    requires
        tokenizer.callable(),
        tokenizer.allowed_tokens@.len() > 0,
        plan@.fits(),
        plan@.has_turn(conv_idx as int, turn_idx as int),
    ensures
        forall|model: TokenizerModel| #[trigger]
            tokenizer.behaves_as(model) ==> result_view(result) == prefix_turn_of(
                model,
                plan@,
                conv_idx as int,
                turn_idx as int,
            ),
        result matches Ok(turn) ==> prefixed(turn@, plan@, conv_idx as int),
        tokenizer.infallible() ==> result is Ok,
{
    let ghost c = conv_idx as int;
    let ghost t = turn_idx as int;
    assert(plan@.start(c, t) + plan@.own_len(t) <= usize::MAX);
    assert(conv_idx * plan.max_turns >= 0) by (nonlinear_arith)
        requires
            conv_idx >= 0,
            plan.max_turns >= 0,
    ;
    let own_len: usize = if turn_idx == 0 {
        plan.unique_len
    } else {
        plan.later_unique_len
    };
    let start: usize = plan.unique_offsets[conv_idx][turn_idx] + conv_idx * plan.max_turns
        + turn_idx;
    let (unique_text, _) = make_suffix(tokenizer, start, own_len)?;
    let mut combined: String = String::new();
    combined.append(&*plan.shared_prefix_text);
    combined.append(plan.global_text.as_str());
    combined.append(plan.conv_texts[conv_idx].as_str());
    assert(combined@ =~= plan@.prefix(c));
    combined.append(unique_text.as_str());
    assert(plan@.prefix(c).is_prefix_of(combined@));
    let tokens: Vec<u32> = tokenizer.encode(combined.as_str(), false)?;
    Ok(
        ConversationTurn {
            user_message: shared_text(combined),
            user_message_len: tokens.len(),
            expected_output_len: plan.output_len,
        },
    )
}

/// The first `n` turns of conversation `c`.
pub open spec fn prefix_turns_of(
    tokenizer: TokenizerModel,
    plan: PrefixPlanView,
    c: int,
    n: nat,
) -> Result<Seq<TurnView>, BenchErrorView> {
    collected(|t: int| prefix_turn_of(tokenizer, plan, c, t), n)
}

/// Conversation `c`.
pub open spec fn prefix_conversation_of(
    tokenizer: TokenizerModel,
    plan: PrefixPlanView,
    c: int,
) -> Result<ConversationView, BenchErrorView> {
    match prefix_turns_of(tokenizer, plan, c, plan.unique_offsets[c].len()) {
        Err(error) => Err(error),
        Ok(turns) => Ok(
            ConversationView { conversation_id: id_of(plan.request_id_prefix, c as nat), turns },
        ),
    }
}

/// Makes conversation `conv_idx`.
pub fn prefix_conversation<D, E>(
    tokenizer: &TokenizerKind<D, E>,
    plan: &PrefixPlan,
    conv_idx: usize,
) -> (result: Result<MultiTurnConversation, BenchError>) where
    D: Fn(&[u32], bool) -> Result<String, BenchError>,
    E: Fn(&str, bool) -> Result<Vec<u32>, BenchError>,

    requires
        tokenizer.callable(),
        tokenizer.allowed_tokens@.len() > 0,
        plan@.fits(),
        conv_idx < plan@.unique_offsets.len(),
    ensures
        forall|model: TokenizerModel| #[trigger]
            tokenizer.behaves_as(model) ==> result_view(result) == prefix_conversation_of(
                model,
                plan@,
                conv_idx as int,
            ),
        result matches Ok(conversation) ==> outlined(
            conversation@,
            plan.request_id_prefix@,
            conv_idx as nat,
            plan@.unique_offsets[conv_idx as int].len(),
            plan.output_len,
        ) && forall|t: int|
            0 <= t < conversation@.turns.len() ==> prefixed(
                #[trigger] conversation@.turns[t],
                plan@,
                conv_idx as int,
            ),
        plan@.unique_offsets[conv_idx as int].len() == 0 ==> result is Ok,
        tokenizer.infallible() ==> result is Ok,
{
    let mut turns: Vec<ConversationTurn> = Vec::new();
    let ghost c = conv_idx as int;
    let count: usize = plan.unique_offsets[conv_idx].len();
    let mut turn_idx: usize = 0;
    assert(turns_view(turns@) =~= Seq::<TurnView>::empty());
    while turn_idx < count
        invariant
            tokenizer.callable(),
            tokenizer.allowed_tokens@.len() > 0,
            plan@.fits(),
            c == conv_idx < plan@.unique_offsets.len(),
            turn_idx <= count,
            count == plan@.unique_offsets[c].len(),
            turns@.len() == turn_idx,
            forall|t: int| 0 <= t < turn_idx ==> prefixed((#[trigger] turns@[t])@, plan@, c),
            forall|model: TokenizerModel| #[trigger]
                tokenizer.behaves_as(model) ==> Ok::<Seq<TurnView>, BenchErrorView>(
                    turns_view(turns@),
                ) == prefix_turns_of(model, plan@, c, turn_idx as nat),
        decreases count - turn_idx,
    {
        let ghost before = turns@;
        proof {
            assert forall|model: TokenizerModel| #[trigger]
                tokenizer.behaves_as(model) implies stops_early(
                prefix_turns_of(model, plan@, c, (turn_idx + 1) as nat),
                prefix_turns_of(model, plan@, c, count as nat),
            ) by {
                law_collected_stops_at_first_error(
                    |t: int| prefix_turn_of(model, plan@, c, t),
                    (turn_idx + 1) as nat,
                    count as nat,
                );
            }
        }
        let turn: ConversationTurn = prefix_turn(tokenizer, plan, conv_idx, turn_idx)?;
        turns.push(turn);
        assert(turns_view(turns@) =~= turns_view(before).push(turn@));
        turn_idx = turn_idx + 1;
    }
    Ok(
        MultiTurnConversation {
            conversation_id: conversation_id(plan.request_id_prefix.as_str(), conv_idx),
            turns,
        },
    )
}

/// The conversations of a plan.
pub open spec fn prefix_conversations_of(
    tokenizer: TokenizerModel,
    plan: PrefixPlanView,
    n: nat,
) -> Result<Seq<ConversationView>, BenchErrorView> {
    collected(|c: int| prefix_conversation_of(tokenizer, plan, c), n)
}

/// The complaint about later turns that leave no room for tokens of their own.
pub open spec fn budget_complaint(per_turn_len: nat, global_len: nat, conv_len: nat) -> Seq<char> {
    "--per-turn-input-len ("@ + decimal(per_turn_len)
        + " after special tokens) is too small: global_len="@ + decimal(global_len)
        + " + conv_len="@ + decimal(conv_len)
        + " already fills the budget. Increase --per-turn-input-len or reduce prefix ratios."@
}

/// Complains about later turns that leave no room for tokens of their own.
fn budget_error(per_turn_len: usize, global_len: usize, conv_len: usize) -> (error: BenchError)
    ensures
        error@ == BenchErrorView::Config(
            budget_complaint(per_turn_len as nat, global_len as nat, conv_len as nat),
        ),
{
    let mut text: String = "--per-turn-input-len (".to_string();
    append_decimal(&mut text, per_turn_len as u64);
    text.append(" after special tokens) is too small: global_len=");
    append_decimal(&mut text, global_len as u64);
    text.append(" + conv_len=");
    append_decimal(&mut text, conv_len as u64);
    text.append(
        " already fills the budget. Increase --per-turn-input-len or reduce prefix ratios.",
    );
    BenchError::Config(text)
}

/// The text part of a prompt.
pub open spec fn text_part(prompt: Result<(Seq<char>, Seq<u32>), BenchErrorView>) -> Result<
    Seq<char>,
    BenchErrorView,
> {
    match prompt {
        Ok((text, _)) => Ok(text),
        Err(error) => Err(error),
    }
}

/// The prefixes of the first `n` conversations.
pub open spec fn conv_texts_of(
    tokenizer: TokenizerModel,
    conv_offsets: Seq<usize>,
    conv_len: nat,
    n: nat,
) -> Result<Seq<Seq<char>>, BenchErrorView> {
    collected(|c: int| text_part(suffix_of(tokenizer, conv_offsets[c] + c, conv_len)), n)
}

/// The outcome of making texts, by value.
pub open spec fn texts_result(result: Result<Vec<String>, BenchError>) -> Result<
    Seq<Seq<char>>,
    BenchErrorView,
> {
    match result {
        Ok(texts) => Ok(texts_view(texts@)),
        Err(error) => Err(error@),
    }
}

/// Makes the prefix of each conversation.
fn make_conv_texts<D, E>(
    tokenizer: &TokenizerKind<D, E>,
    conv_offsets: &Vec<usize>,
    conv_len: usize,
) -> (result: Result<Vec<String>, BenchError>) where
    D: Fn(&[u32], bool) -> Result<String, BenchError>,
    E: Fn(&str, bool) -> Result<Vec<u32>, BenchError>,

    requires
        tokenizer.callable(),
        tokenizer.allowed_tokens@.len() > 0,
        conv_len <= usize::MAX / 2,
        forall|c: int|
            0 <= c < conv_offsets@.len() ==> (#[trigger] conv_offsets@[c])
                < tokenizer.allowed_tokens@.len(),
        tokenizer.allowed_tokens@.len() + conv_offsets@.len() + conv_len <= usize::MAX,
    ensures
        forall|model: TokenizerModel| #[trigger]
            tokenizer.behaves_as(model) ==> texts_result(result) == conv_texts_of(
                model,
                conv_offsets@,
                conv_len as nat,
                conv_offsets@.len(),
            ),
        result matches Ok(texts) ==> texts@.len() == conv_offsets@.len(),
        conv_len == 0 || conv_offsets@.len() == 0 ==> result is Ok,
        tokenizer.infallible() ==> result is Ok,
{
    let mut texts: Vec<String> = Vec::new();
    let mut conv_idx: usize = 0;
    assert(texts_view(texts@) =~= Seq::<Seq<char>>::empty());
    while conv_idx < conv_offsets.len()
        invariant
            tokenizer.callable(),
            tokenizer.allowed_tokens@.len() > 0,
            conv_len <= usize::MAX / 2,
            forall|c: int|
                0 <= c < conv_offsets@.len() ==> (#[trigger] conv_offsets@[c])
                    < tokenizer.allowed_tokens@.len(),
            tokenizer.allowed_tokens@.len() + conv_offsets@.len() + conv_len <= usize::MAX,
            conv_idx <= conv_offsets@.len(),
            texts@.len() == conv_idx,
            forall|model: TokenizerModel| #[trigger]
                tokenizer.behaves_as(model) ==> Ok::<Seq<Seq<char>>, BenchErrorView>(
                    texts_view(texts@),
                ) == conv_texts_of(model, conv_offsets@, conv_len as nat, conv_idx as nat),
        decreases conv_offsets@.len() - conv_idx,
    {
        let ghost before = texts@;
        proof {
            assert forall|model: TokenizerModel| #[trigger]
                tokenizer.behaves_as(model) implies stops_early(
                conv_texts_of(model, conv_offsets@, conv_len as nat, (conv_idx + 1) as nat),
                conv_texts_of(model, conv_offsets@, conv_len as nat, conv_offsets@.len()),
            ) by {
                law_collected_stops_at_first_error(
                    |c: int| text_part(suffix_of(model, conv_offsets@[c] + c, conv_len as nat)),
                    (conv_idx + 1) as nat,
                    conv_offsets@.len(),
                );
            }
        }
        let (text, _) = make_suffix(tokenizer, conv_offsets[conv_idx] + conv_idx, conv_len)?;
        texts.push(text);
        assert(texts_view(texts@) =~= texts_view(before).push(text@));
        conv_idx = conv_idx + 1;
    }
    Ok(texts)
}

/// The plan that goes with what was drawn, for turns of the given input lengths.
///
/// Segment lengths are those of turn 0, so that the shared prefixes are the same in all turns.
pub open spec fn prefix_plan_from(
    tokenizer: TokenizerModel,
    cfg: &MultiTurnRandomConfig,
    sharing: PrefixSharingConfig,
    input_len: usize,
    per_turn_len: usize,
    draws: PrefixDrawsView,
) -> Result<PrefixPlanView, BenchErrorView> {
    match shared_prefix_of(tokenizer, cfg.prefix_len, cfg.seed) {
        Err(error) => Err(error),
        Ok(shared_prefix_text) => match suffix_of(
            tokenizer,
            draws.global_offset as int,
            sharing.global_len as nat,
        ) {
            Err(error) => Err(error),
            Ok((global_text, _)) => match conv_texts_of(
                tokenizer,
                draws.conv_offsets,
                sharing.conversation_len as nat,
                draws.conv_offsets.len(),
            ) {
                Err(error) => Err(error),
                Ok(conv_texts) => Ok(
                    PrefixPlanView {
                        max_turns: cfg.max_turns,
                        output_len: cfg.output_len,
                        request_id_prefix: cfg.request_id_prefix@,
                        unique_len: minus(
                            input_len,
                            (sharing.global_len + sharing.conversation_len) as usize,
                        ),
                        later_unique_len: minus(
                            per_turn_len,
                            (sharing.global_len + sharing.conversation_len) as usize,
                        ),
                        unique_offsets: draws.unique_offsets,
                        shared_prefix_text,
                        global_text,
                        conv_texts,
                    },
                ),
            },
        },
    }
}

/// The plan of conversations with shared prefixes.
pub open spec fn prefix_plan_of(
    tokenizer: TokenizerModel,
    cfg: &MultiTurnRandomConfig,
    sharing: PrefixSharingConfig,
) -> Result<PrefixPlanView, BenchErrorView> {
    match checked_prefix_lens(tokenizer.num_special_tokens, cfg, sharing) {
        Err(error) => Err(error),
        Ok((input_len, per_turn_len)) => prefix_plan_from(
            tokenizer,
            cfg,
            sharing,
            input_len,
            per_turn_len,
            prefix_draws(tokenizer.allowed_tokens.len(), tokenizer.vocab_size, cfg, sharing),
        ),
    }
}

/// The input lengths of turn 0 and of the later turns without the special tokens, where later
/// turns have room for tokens of their own.
pub open spec fn checked_prefix_lens(
    num_special: usize,
    cfg: &MultiTurnRandomConfig,
    sharing: PrefixSharingConfig,
) -> Result<(usize, usize), BenchErrorView> {
    let input_len = real_input_len(cfg.input_len, num_special);
    let per_turn_len = real_per_turn_len(cfg.input_len, cfg.per_turn_input_len, num_special);
    if per_turn_len <= sharing.global_len + sharing.conversation_len {
        Err(
            BenchErrorView::Config(
                budget_complaint(
                    per_turn_len as nat,
                    sharing.global_len as nat,
                    sharing.conversation_len as nat,
                ),
            ),
        )
    } else {
        Ok((input_len, per_turn_len))
    }
}

/// The configuration can be planned with shared prefixes: where later turns have room, there is
/// something to draw from, and machine limits are kept.
pub open spec fn can_share<D, E>(
    tokenizer: &TokenizerKind<D, E>,
    cfg: &MultiTurnRandomConfig,
    sharing: PrefixSharingConfig,
) -> bool where
    D: Fn(&[u32], bool) -> Result<String, BenchError>,
    E: Fn(&str, bool) -> Result<Vec<u32>, BenchError>,
 {
    &&& tokenizer.callable()
    &&& sharing.global_len + sharing.conversation_len <= usize::MAX
    &&& checked_prefix_lens(
        tokenizer.num_special_tokens,
        cfg,
        sharing,
    ) matches Ok((input_len, per_turn_len)) ==> {
        &&& tokenizer.allowed_tokens@.len() > 0
        &&& cfg.drawable(tokenizer.vocab_size, input_len)
        &&& cfg.drawable(tokenizer.vocab_size, per_turn_len)
        &&& cfg.prefix_len <= usize::MAX / 2
        &&& tokenizer.allowed_tokens@.len() + cfg.num_conversations + per_turn_len <= usize::MAX
    }
}

/// Whether the configuration can be planned with shared prefixes.
pub fn is_shareable<D, E>(
    tokenizer: &TokenizerKind<D, E>,
    cfg: &MultiTurnRandomConfig,
    sharing: PrefixSharingConfig,
) -> (shareable: bool) where
    D: Fn(&[u32], bool) -> Result<String, BenchError>,
    E: Fn(&str, bool) -> Result<Vec<u32>, BenchError>,

    requires
        tokenizer.callable(),
    ensures
        shareable == can_share(tokenizer, cfg, sharing),
{
    let allowed_len: usize = tokenizer.get_allowed_tokens().len();
    let (input_len, per_turn_len) = real_lens(
        cfg.input_len,
        cfg.per_turn_input_len,
        tokenizer.num_special_tokens,
    );
    match sharing.global_len.checked_add(sharing.conversation_len) {
        None => false,
        Some(shared_len) => {
            if per_turn_len <= shared_len {
                return true;
            }
            let room: bool = match allowed_len.checked_add(cfg.num_conversations) {
                Some(places) => per_turn_len <= usize::MAX - places,
                None => false,
            };
            room && allowed_len > 0 && cfg.prefix_len <= usize::MAX / 2 && cfg.can_draw(
                tokenizer.vocab_size,
                input_len,
            ) && cfg.can_draw(tokenizer.vocab_size, per_turn_len)
        },
    }
}

/// There is no text to make that conversations share.
pub open spec fn shares_no_text(cfg: &MultiTurnRandomConfig, sharing: PrefixSharingConfig) -> bool {
    &&& cfg.prefix_len == 0
    &&& sharing.global_len == 0
    &&& sharing.conversation_len == 0 || cfg.num_conversations == 0
}

/// The outcome of [`plan_prefix_sharing`], by value.
pub open spec fn prefix_plan_result(result: Result<PrefixPlan, BenchError>) -> Result<
    PrefixPlanView,
    BenchErrorView,
> {
    match result {
        Ok(plan) => Ok(plan@),
        Err(error) => Err(error@),
    }
}

/// Draws everything that conversations with shared prefixes need, and makes the prefixes.
pub fn plan_prefix_sharing<D, E>(
    tokenizer: &TokenizerKind<D, E>,
    cfg: &MultiTurnRandomConfig,
    sharing: PrefixSharingConfig,
) -> (result: Result<PrefixPlan, BenchError>) where
    D: Fn(&[u32], bool) -> Result<String, BenchError>,
    E: Fn(&str, bool) -> Result<Vec<u32>, BenchError>,

    requires
        can_share(tokenizer, cfg, sharing),
    ensures
        forall|model: TokenizerModel| #[trigger]
            tokenizer.behaves_as(model) ==> prefix_plan_result(result) == prefix_plan_of(
                model,
                cfg,
                sharing,
            ),
        match checked_prefix_lens(tokenizer.num_special_tokens, cfg, sharing) {
            Err(error) => prefix_plan_result(result) == Err::<PrefixPlanView, BenchErrorView>(
                error,
            ),
            Ok((input_len, per_turn_len)) => {
                &&& shares_no_text(cfg, sharing) ==> result is Ok
                &&& tokenizer.infallible() ==> result is Ok
                &&& result matches Ok(plan) ==> {
                    &&& plan@.fits()
                    &&& plan@.max_turns == cfg.max_turns
                    &&& plan@.output_len == cfg.output_len
                    &&& plan@.request_id_prefix == cfg.request_id_prefix@
                    &&& plan@.unique_len == minus(
                        input_len,
                        (sharing.global_len + sharing.conversation_len) as usize,
                    )
                    &&& plan@.later_unique_len == per_turn_len - sharing.global_len
                        - sharing.conversation_len
                    &&& plan@.unique_offsets == prefix_draws(
                        tokenizer.allowed_tokens@.len(),
                        tokenizer.vocab_size,
                        cfg,
                        sharing,
                    ).unique_offsets
                    &&& plan@.unique_offsets.len() == cfg.num_conversations
                    &&& forall|c: int|
                        0 <= c < cfg.num_conversations ==> cfg.min_turns <= (
                        #[trigger] plan@.unique_offsets[c]).len() <= cfg.max_turns
                }
            },
        },
{
    let (input_len, per_turn_len) = real_lens(
        cfg.input_len,
        cfg.per_turn_input_len,
        tokenizer.num_special_tokens,
    );
    let shared_len: usize = sharing.global_len + sharing.conversation_len;
    if per_turn_len <= shared_len {
        return Err(budget_error(per_turn_len, sharing.global_len, sharing.conversation_len));
    }
    let draws: PrefixDraws = draw_prefixes(
        tokenizer.get_allowed_tokens().len(),
        tokenizer.vocab_size,
        cfg,
        sharing,
    );
    let shared_prefix_text: Arc<str> = generate_shared_prefix_text(
        tokenizer,
        cfg.prefix_len,
        cfg.seed,
    )?;
    let (global_text, _) = make_suffix(tokenizer, draws.global_offset, sharing.global_len)?;
    let conv_texts: Vec<String> = make_conv_texts(
        tokenizer,
        &draws.conv_offsets,
        sharing.conversation_len,
    )?;
    let ghost drawn = draws.unique_offsets@;
    let plan: PrefixPlan = PrefixPlan {
        max_turns: cfg.max_turns,
        output_len: cfg.output_len,
        request_id_prefix: cfg.request_id_prefix.clone(),
        unique_len: input_len.saturating_sub(shared_len),
        later_unique_len: per_turn_len - shared_len,
        unique_offsets: draws.unique_offsets,
        shared_prefix_text,
        global_text,
        conv_texts,
    };
    proof {
        assert forall|c: int, t: int|
            #![trigger plan@.start(c, t)]
            plan@.has_turn(c, t) implies plan@.own_len(t) <= usize::MAX / 2 && plan@.start(c, t)
            + plan@.own_len(t) <= usize::MAX by {
            assert(plan@.unique_offsets[c] == drawn[c]@);
            assert(drawn[c]@[t] < tokenizer.vocab_size);
            lemma_start_fits(
                plan@.unique_offsets[c][t] as int,
                c,
                t,
                tokenizer.vocab_size as int,
                cfg.num_conversations as int,
                cfg.max_turns as int,
                plan@.own_len(t) as int,
            );
        }
    }
    Ok(plan)
}

/// Makes all conversations of a plan, one after the other.
pub fn prefix_conversations<D, E>(
    tokenizer: &TokenizerKind<D, E>,
    plan: &PrefixPlan,
) -> (result: Result<Vec<MultiTurnConversation>, BenchError>) where
    D: Fn(&[u32], bool) -> Result<String, BenchError>,
    E: Fn(&str, bool) -> Result<Vec<u32>, BenchError>,

    requires
        tokenizer.callable(),
        tokenizer.allowed_tokens@.len() > 0,
        plan@.fits(),
    ensures
        forall|model: TokenizerModel| #[trigger]
            tokenizer.behaves_as(model) ==> conversations_result(result) == prefix_conversations_of(
                model,
                plan@,
                plan@.unique_offsets.len(),
            ),
        result matches Ok(conversations) ==> conversations@.len() == plan@.unique_offsets.len()
            && forall|c: int|
            0 <= c < conversations@.len() ==> outlined(
                (#[trigger] conversations@[c])@,
                plan.request_id_prefix@,
                c as nat,
                plan@.unique_offsets[c].len(),
                plan.output_len,
            ) && forall|t: int|
                0 <= t < conversations@[c]@.turns.len() ==> prefixed(
                    #[trigger] conversations@[c]@.turns[t],
                    plan@,
                    c,
                ),
        (forall|c: int|
            0 <= c < plan@.unique_offsets.len() ==> (#[trigger] plan@.unique_offsets[c]).len()
                == 0) ==> result is Ok,
        tokenizer.infallible() ==> result is Ok,
{
    let mut conversations: Vec<MultiTurnConversation> = Vec::new();
    let count: usize = plan.unique_offsets.len();
    let mut conv_idx: usize = 0;
    assert(conversations_view(conversations@) =~= Seq::<ConversationView>::empty());
    while conv_idx < count
        invariant
            tokenizer.callable(),
            tokenizer.allowed_tokens@.len() > 0,
            plan@.fits(),
            conv_idx <= count,
            count == plan@.unique_offsets.len(),
            conversations@.len() == conv_idx,
            forall|c: int|
                0 <= c < conv_idx ==> outlined(
                    (#[trigger] conversations@[c])@,
                    plan.request_id_prefix@,
                    c as nat,
                    plan@.unique_offsets[c].len(),
                    plan.output_len,
                ) && forall|t: int|
                    0 <= t < conversations@[c]@.turns.len() ==> prefixed(
                        #[trigger] conversations@[c]@.turns[t],
                        plan@,
                        c,
                    ),
            forall|model: TokenizerModel| #[trigger]
                tokenizer.behaves_as(model) ==> Ok::<Seq<ConversationView>, BenchErrorView>(
                    conversations_view(conversations@),
                ) == prefix_conversations_of(model, plan@, conv_idx as nat),
        decreases count - conv_idx,
    {
        let ghost before = conversations@;
        proof {
            assert forall|model: TokenizerModel| #[trigger]
                tokenizer.behaves_as(model) implies stops_early(
                prefix_conversations_of(model, plan@, (conv_idx + 1) as nat),
                prefix_conversations_of(model, plan@, count as nat),
            ) by {
                law_collected_stops_at_first_error(
                    |c: int| prefix_conversation_of(model, plan@, c),
                    (conv_idx + 1) as nat,
                    count as nat,
                );
            }
        }
        let conversation: MultiTurnConversation = prefix_conversation(tokenizer, plan, conv_idx)?;
        conversations.push(conversation);
        assert(conversations_view(conversations@) =~= conversations_view(before).push(
            conversation@,
        ));
        conv_idx = conv_idx + 1;
    }
    Ok(conversations)
}

/// The conversations with shared prefixes.
pub open spec fn prefix_generated(
    tokenizer: TokenizerModel,
    cfg: &MultiTurnRandomConfig,
    sharing: PrefixSharingConfig,
) -> Result<Seq<ConversationView>, BenchErrorView> {
    match prefix_plan_of(tokenizer, cfg, sharing) {
        Err(error) => Err(error),
        Ok(plan) => prefix_conversations_of(tokenizer, plan, plan.unique_offsets.len()),
    }
}

/// Generate conversations with 3-tier prefix sharing.
///
/// Each turn's user message = [global_prefix][conversation_prefix][unique_suffix]. No history
/// accumulation: each turn sends only its own fixed-length message.
pub fn generate_prefix_sharing_conversations<D, E>(
    tokenizer: &TokenizerKind<D, E>,
    cfg: &MultiTurnRandomConfig,
    sharing: PrefixSharingConfig,
) -> (result: Result<Vec<MultiTurnConversation>, BenchError>) where
    D: Fn(&[u32], bool) -> Result<String, BenchError>,
    E: Fn(&str, bool) -> Result<Vec<u32>, BenchError>,

    requires
        can_share(tokenizer, cfg, sharing),
    ensures
        forall|model: TokenizerModel| #[trigger]
            tokenizer.behaves_as(model) ==> conversations_result(result) == prefix_generated(
                model,
                cfg,
                sharing,
            ),
        match checked_prefix_lens(tokenizer.num_special_tokens, cfg, sharing) {
            Err(error) => conversations_result(result) == Err::<
                Seq<ConversationView>,
                BenchErrorView,
            >(error),
            Ok(_) => tokenizer.infallible() || (cfg.has_no_turns() && shares_no_text(cfg, sharing))
                ==> result is Ok,
        },
        result matches Ok(conversations) ==> laid_out(
            conversations_view(conversations@),
            cfg,
            prefix_draws(
                tokenizer.allowed_tokens@.len(),
                tokenizer.vocab_size,
                cfg,
                sharing,
            ).unique_offsets,
        ),
{
    let plan: PrefixPlan = plan_prefix_sharing(tokenizer, cfg, sharing)?;
    prefix_conversations(tokenizer, &plan)
}

} // verus!
