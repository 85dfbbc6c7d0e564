//! Random multi-turn conversations, in either mode.
use vstd::prelude::*;
use crate::datasets::config::{MultiTurnRandomConfig, check_setup, checked_setup};
use crate::datasets::laws::{law_exact_conversations, law_exact_prefix_conversations};
use crate::datasets::parts::laid_out;
use crate::datasets::prefix_sharing::{
    can_share, checked_prefix_lens, generate_prefix_sharing_conversations, is_shareable,
    prefix_draws, prefix_generated, shares_no_text,
};
use crate::datasets::random_turns::{
    RandomPlan, cache_complaint, can_plan, conversations_of, drawn_plan, is_plannable, plan_of,
    plan_random, random_conversations,
};
use crate::datasets::{
    ConversationView, MultiTurnConversation, conversations_result, conversations_view,
};
use crate::error::{BenchError, BenchErrorView};
use crate::text::decimal;
use crate::tokenizer::{TokenizerKind, TokenizerModel};

verus! {

/// The configuration can be used to generate conversations.
pub open spec fn can_generate<D, E>(
    tokenizer: &TokenizerKind<D, E>,
    cfg: &MultiTurnRandomConfig,
) -> bool where
    D: Fn(&[u32], bool) -> Result<String, BenchError>,
    E: Fn(&str, bool) -> Result<Vec<u32>, BenchError>,
 {
    match cfg.prefix_sharing_config {
        Some(sharing) => tokenizer.callable() && (checked_setup(
            tokenizer.allowed_tokens@,
            tokenizer.num_special_tokens,
            cfg,
        ) is Ok ==> can_share(tokenizer, cfg, sharing)),
        None => can_plan(tokenizer, cfg),
    }
}

/// Whether the configuration can be used to generate conversations.
pub fn is_generable<D, E>(
    tokenizer: &TokenizerKind<D, E>,
    cfg: &MultiTurnRandomConfig,
) -> (generable: bool) where
    D: Fn(&[u32], bool) -> Result<String, BenchError>,
    E: Fn(&str, bool) -> Result<Vec<u32>, BenchError>,

    requires
        tokenizer.callable(),
    ensures
        generable == can_generate(tokenizer, cfg),
{
    match &cfg.prefix_sharing_config {
        Some(sharing) => match check_setup(
            tokenizer.get_allowed_tokens(),
            tokenizer.num_special_tokens,
            cfg,
        ) {
            Ok(_) => is_shareable(tokenizer, cfg, *sharing),
            Err(_) => true,
        },
        None => is_plannable(tokenizer, cfg),
    }
}

/// The complaint about a configuration, if there is one. No tokenizer call decides it.
pub open spec fn refusal(
    allowed_tokens: Seq<u32>,
    num_special: usize,
    cfg: &MultiTurnRandomConfig,
) -> Option<BenchErrorView> {
    match checked_setup(allowed_tokens, num_special, cfg) {
        Err(error) => Some(error),
        Ok(_) => match cfg.prefix_sharing_config {
            Some(sharing) => match checked_prefix_lens(num_special, cfg, sharing) {
                Err(error) => Some(error),
                Ok(_) => None,
            },
            None => if cfg.cache_refused() {
                Some(BenchErrorView::Config(cache_complaint()))
            } else {
                None
            },
        },
    }
}

/// There is no text to make, neither shared nor of any turn.
pub open spec fn needs_no_text(cfg: &MultiTurnRandomConfig) -> bool {
    cfg.has_no_turns() && match cfg.prefix_sharing_config {
        Some(sharing) => shares_no_text(cfg, sharing),
        None => if cfg.is_bimodal() {
            cfg.cache_base_len == 0
        } else {
            cfg.prefix_len == 0
        },
    }
}

/// For each turn of each conversation, the drawn part of the place where its tokens start.
pub open spec fn drawn_offsets(
    allowed_len: nat,
    vocab_size: u32,
    cfg: &MultiTurnRandomConfig,
) -> Seq<Seq<usize>> {
    match cfg.prefix_sharing_config {
        Some(sharing) => prefix_draws(allowed_len, vocab_size, cfg, sharing).unique_offsets,
        None => drawn_plan(vocab_size, cfg, 0, 0).offsets,
    }
}

/// The conversations that `cfg` asks for.
pub open spec fn generated(
    tokenizer: TokenizerModel,
    cfg: &MultiTurnRandomConfig,
) -> Result<Seq<ConversationView>, BenchErrorView> {
    match cfg.prefix_sharing_config {
        Some(sharing) => match checked_setup(
            tokenizer.allowed_tokens,
            tokenizer.num_special_tokens,
            cfg,
        ) {
            Err(error) => Err(error),
            Ok(_) => prefix_generated(tokenizer, cfg, sharing),
        },
        None => match plan_of(tokenizer, cfg) {
            Err(error) => Err(error),
            Ok(plan) => conversations_of(tokenizer, plan, plan.offsets.len()),
        },
    }
}

/// The larger of two lengths.
pub open spec fn larger(a: int, b: int) -> int {
    if a >= b {
        a
    } else {
        b
    }
}

/// The most tokens that one text can be made of, where `input_len` and `per_turn_len` were asked
/// for.
pub open spec fn longest_message(
    cfg: &MultiTurnRandomConfig,
    input_len: usize,
    per_turn_len: usize,
) -> nat {
    match cfg.prefix_sharing_config {
        Some(sharing) => (cfg.prefix_len + larger(
            sharing.turn_len(input_len, per_turn_len, 0),
            sharing.turn_len(input_len, per_turn_len, 1),
        )) as nat,
        None => larger(
            larger(
                cfg.turn_prefix_len(0) + cfg.longest_first(input_len),
                cfg.longest_later(per_turn_len) as int,
            ),
            if cfg.is_bimodal() {
                cfg.cache_base_len as int
            } else {
                0
            },
        ) as nat,
    }
}

/// `len` is the length of the message of turn `t`, where `input_len` and `per_turn_len` were
/// asked for.
pub open spec fn is_message_len(
    cfg: &MultiTurnRandomConfig,
    input_len: usize,
    per_turn_len: usize,
    t: int,
    len: usize,
) -> bool {
    match cfg.prefix_sharing_config {
        Some(sharing) => len == cfg.prefix_len + sharing.turn_len(input_len, per_turn_len, t),
        None => len >= cfg.turn_prefix_len(t) && cfg.is_turn_len(
            input_len,
            per_turn_len,
            t,
            (len - cfg.turn_prefix_len(t)) as usize,
        ),
    }
}

/// Every message has the length that was asked for.
pub open spec fn has_message_lens(
    conversations: Seq<ConversationView>,
    cfg: &MultiTurnRandomConfig,
    input_len: usize,
    per_turn_len: usize,
) -> bool {
    forall|c: int, t: int|
        #![trigger conversations[c].turns[t]]
        0 <= c < conversations.len() && 0 <= t < conversations[c].turns.len()
            ==> is_message_len(
            cfg,
            input_len,
            per_turn_len,
            t,
            conversations[c].turns[t].user_message_len,
        )
}

/// Generate synthetic multi-turn conversations with random user messages.
///
/// Each conversation has between `min_turns` and `max_turns` turns, each with a random user
/// prompt and `output_len` expected output tokens.
pub fn generate_multi_turn_random<D, E>(
    tokenizer: &TokenizerKind<D, E>,
    cfg: &MultiTurnRandomConfig,
) -> (result: Result<Vec<MultiTurnConversation>, BenchError>) where
    D: Fn(&[u32], bool) -> Result<String, BenchError>,
    E: Fn(&str, bool) -> Result<Vec<u32>, BenchError>,

    requires
        can_generate(tokenizer, cfg),
    ensures
        forall|model: TokenizerModel| #[trigger]
            tokenizer.behaves_as(model) ==> conversations_result(result) == generated(model, cfg),
        refusal(
            tokenizer.allowed_tokens@,
            tokenizer.num_special_tokens,
            cfg,
        ) matches Some(error) ==> conversations_result(result) == Err::<
            Seq<ConversationView>,
            BenchErrorView,
        >(error),
        refusal(tokenizer.allowed_tokens@, tokenizer.num_special_tokens, cfg) is None && (
        tokenizer.infallible() || needs_no_text(cfg)) ==> result is Ok,
        result matches Ok(conversations) ==> laid_out(
            conversations_view(conversations@),
            cfg,
            drawn_offsets(tokenizer.allowed_tokens@.len(), tokenizer.vocab_size, cfg),
        ),
        refusal(tokenizer.allowed_tokens@, tokenizer.num_special_tokens, cfg) is None ==> (
        checked_setup(
            tokenizer.allowed_tokens@,
            tokenizer.num_special_tokens,
            cfg,
        ) matches Ok((input_len, per_turn_len)) ==> forall|model: TokenizerModel| #[trigger]
            tokenizer.behaves_as(model) && model.exact(
                longest_message(cfg, input_len, per_turn_len),
            ) ==> (result matches Ok(conversations) && has_message_lens(
                conversations_view(conversations@),
                cfg,
                input_len,
                per_turn_len,
            ))),
{
    let ghost allowed = tokenizer.allowed_tokens@;
    let ghost special = tokenizer.num_special_tokens;
    let ghost refused = refusal(allowed, special, cfg) is Some;
    let ghost (input_len, per_turn_len) = checked_setup(allowed, special, cfg)->Ok_0;
    let ghost longest = longest_message(cfg, input_len, per_turn_len);
    match &cfg.prefix_sharing_config {
        Some(sharing) => {
            proof {
                assert forall|model: TokenizerModel| #[trigger]
                    tokenizer.behaves_as(model) && !refused && model.exact(longest) implies (
                generated(model, cfg) matches Ok(conversations) && has_message_lens(
                    conversations,
                    cfg,
                    input_len,
                    per_turn_len,
                )) by {
                    law_exact_prefix_conversations(model, cfg, *sharing, input_len, per_turn_len);
                }
            }
            let _ = check_setup(
                tokenizer.get_allowed_tokens(),
                tokenizer.num_special_tokens,
                cfg,
            )?;
            generate_prefix_sharing_conversations(tokenizer, cfg, *sharing)
        },
        None => {
            proof {
                assert forall|model: TokenizerModel| #[trigger]
                    tokenizer.behaves_as(model) && !refused && model.exact(longest) implies (
                generated(model, cfg) matches Ok(conversations) && has_message_lens(
                    conversations,
                    cfg,
                    input_len,
                    per_turn_len,
                )) by {
                    law_exact_conversations(model, cfg, input_len, per_turn_len);
                }
            }
            let plan: RandomPlan = plan_random(tokenizer, cfg)?;
            random_conversations(tokenizer, &plan)
        },
    }
}

/// What is refused before anything is made, in words.
pub proof fn law_refusals(allowed_tokens: Seq<u32>, num_special: usize, cfg: &MultiTurnRandomConfig)
    ensures
        checked_setup(allowed_tokens, num_special, cfg) matches Err(error) ==> refusal(
            allowed_tokens,
            num_special,
            cfg,
        ) == Some(error),
        checked_setup(allowed_tokens, num_special, cfg) matches Ok((_, later)) ==> {
            let refused = refusal(allowed_tokens, num_special, cfg);
            match cfg.prefix_sharing_config {
                Some(sharing) => if later <= sharing.global_len + sharing.conversation_len {
                    refused == Some(
                        BenchErrorView::Config(
                            "--per-turn-input-len ("@ + decimal(later as nat)
                                + " after special tokens) is too small: global_len="@ + decimal(
                                sharing.global_len as nat,
                            ) + " + conv_len="@ + decimal(sharing.conversation_len as nat)
                                + " already fills the budget. Increase --per-turn-input-len or reduce prefix ratios."@,
                        ),
                    )
                } else {
                    refused is None
                },
                None => if cfg.cache_hit_fraction > 0 && cfg.cache_ratio > 0 && (
                cfg.cache_hit_fraction > 9007199254740992 || cfg.cache_ratio > 9007199254740992) {
                    refused == Some(
                        BenchErrorView::Config(
                            "--random-cache-hit-fraction and --random-cache-ratio must be in [0, 1]"@,
                        ),
                    )
                } else {
                    refused is None
                },
            }
        },
{
}

/// What is refused is refused whatever the tokenizer does.
pub proof fn law_refused_configurations_generate_nothing(
    tokenizer: TokenizerModel,
    cfg: &MultiTurnRandomConfig,
    error: BenchErrorView,
)
    requires
        refusal(tokenizer.allowed_tokens, tokenizer.num_special_tokens, cfg) == Some(error),
    ensures
        generated(tokenizer, cfg) == Err::<Seq<ConversationView>, BenchErrorView>(error),
{
}

/// Whatever can be planned, or shared, can be generated.
pub proof fn law_plannable_configurations_can_be_generated<D, E>(
    tokenizer: &TokenizerKind<D, E>,
    cfg: &MultiTurnRandomConfig,
    input_len: usize,
    per_turn_len: usize,
) where
    D: Fn(&[u32], bool) -> Result<String, BenchError>,
    E: Fn(&str, bool) -> Result<Vec<u32>, BenchError>,

    requires
        tokenizer.callable(),
        checked_setup(tokenizer.allowed_tokens@, tokenizer.num_special_tokens, cfg) == Ok::<
            (usize, usize),
            BenchErrorView,
        >((input_len, per_turn_len)),
        match cfg.prefix_sharing_config {
            Some(sharing) => {
                &&& sharing.global_len + sharing.conversation_len <= usize::MAX
                &&& cfg.drawable(tokenizer.vocab_size, input_len)
                &&& cfg.drawable(tokenizer.vocab_size, per_turn_len)
                &&& cfg.prefix_len <= usize::MAX / 2
                &&& tokenizer.allowed_tokens@.len() + cfg.num_conversations + per_turn_len
                    <= usize::MAX
            },
            None => cfg.plannable(tokenizer.vocab_size, input_len, per_turn_len),
        },
    ensures
        can_generate(tokenizer, cfg),
{
}

/// What is refused can be asked for: it is answered with the complaint. The one limit is that the
/// lengths of shared prefixes have a sum.
pub proof fn law_refused_configurations_can_be_asked_for<D, E>(
    tokenizer: &TokenizerKind<D, E>,
    cfg: &MultiTurnRandomConfig,
) where
    D: Fn(&[u32], bool) -> Result<String, BenchError>,
    E: Fn(&str, bool) -> Result<Vec<u32>, BenchError>,

    requires
        tokenizer.callable(),
        refusal(tokenizer.allowed_tokens@, tokenizer.num_special_tokens, cfg) is Some,
        cfg.prefix_sharing_config matches Some(sharing) ==> sharing.global_len
            + sharing.conversation_len <= usize::MAX,
    ensures
        can_generate(tokenizer, cfg),
{
}

} // verus!
