//! Random conversations with accumulated history: fixed or drawn turn lengths, a shared prefix,
//! and the bimodal prefix cache.
//!
//! With the prefix cache on, a fraction of whole conversations is "warm": their turn 0 begins with
//! a leading slice of one shared base prefix, so that they hit each other's server-side prefix
//! cache, and the cached prefix keeps paying off in every later turn through history.
use std::sync::Arc;
use vstd::prelude::*;
use crate::datasets::config::{MultiTurnRandomConfig, check_setup, checked_setup};
use crate::datasets::draws::{
    bounds_of, draw_len_rows, draw_tokens, draw_turn_counts, drawn_tokens, last_index, longest,
    next_len_rows, turn_counts,
};
use crate::datasets::parts::{
    counted, generate_shared_prefix_text, make_suffix, outlined, shared_prefix_of, suffix_of,
};
use crate::datasets::prompt::{gen_prompt_to_target_len, prompt_of};
use crate::datasets::{
    ConversationTurn, ConversationView, MultiTurnConversation, TurnView, conversation_id,
    conversations_result, conversations_view, id_of, shared_text, turns_view,
};
use crate::error::{
    BenchError, BenchErrorView, collected, law_collected_stops_at_first_error, result_view,
    stops_early,
};
use crate::rng::{
    draw_choices, draw_rows, next_choices, next_rows, rows_view, seeded, seeded_words,
};
use crate::tokenizer::{TokenizerKind, TokenizerModel};

verus! {

/// What random conversations are made from, once everything is drawn.
pub struct RandomPlan {
    /// The length of turn 0, where lengths are fixed.
    pub input_len: usize,
    /// The length of the later turns, where lengths are fixed.
    pub per_turn_len: usize,
    pub max_turns: usize,
    pub output_len: usize,
    pub request_id_prefix: String,
    /// For each turn of each conversation, the drawn part of the place where its tokens start.
    pub offsets: Vec<Vec<usize>>,
    /// The drawn length of each turn of each conversation; absent where lengths are fixed.
    pub turn_lens: Option<Vec<Vec<usize>>>,
    /// Which conversations are warm; absent where the prefix cache is off.
    pub warm: Option<Vec<bool>>,
    /// The tokens of the shared cached base prefix.
    pub base_tokens: Vec<u32>,
    /// The length of the cached part of a turn 0 of each length, by that length.
    pub cached_lens: Vec<usize>,
    pub shared_prefix_text: Arc<str>,
}

/// The mathematical value of a [`RandomPlan`].
#[verifier::ext_equal]
pub struct PlanView {
    pub input_len: usize,
    pub per_turn_len: usize,
    pub max_turns: usize,
    pub output_len: usize,
    pub request_id_prefix: Seq<char>,
    pub offsets: Seq<Seq<usize>>,
    pub turn_lens: Option<Seq<Seq<usize>>>,
    pub warm: Option<Seq<bool>>,
    pub base_tokens: Seq<u32>,
    pub cached_lens: Seq<usize>,
    pub shared_prefix_text: Seq<char>,
}

impl View for RandomPlan {
    type V = PlanView;

    open spec fn view(&self) -> PlanView {
        PlanView {
            input_len: self.input_len,
            per_turn_len: self.per_turn_len,
            max_turns: self.max_turns,
            output_len: self.output_len,
            request_id_prefix: self.request_id_prefix@,
            offsets: rows_view(self.offsets@),
            turn_lens: match self.turn_lens {
                Some(lens) => Some(rows_view(lens@)),
                None => None,
            },
            warm: match self.warm {
                Some(warm) => Some(warm@),
                None => None,
            },
            base_tokens: self.base_tokens@,
            cached_lens: self.cached_lens@,
            shared_prefix_text: self.shared_prefix_text@,
        }
    }
}

/// The smaller of two lengths.
pub open spec fn smaller(a: usize, b: usize) -> usize {
    if a <= b {
        a
    } else {
        b
    }
}

impl PlanView {
    /// Conversation `c` has a turn `t`.
    pub open spec fn has_turn(self, c: int, t: int) -> bool {
        0 <= c < self.offsets.len() && 0 <= t < self.offsets[c].len()
    }

    /// The length that turn `t` of conversation `c` is to have.
    pub open spec fn target_len(self, c: int, t: int) -> usize {
        match self.turn_lens {
            Some(lens) => lens[c][t],
            None => if t == 0 {
                self.input_len
            } else {
                self.per_turn_len
            },
        }
    }

    /// How many leading tokens of turn `t` of conversation `c` come from the cached base prefix:
    /// only turn 0 of a warm conversation has any, and never more than there are or fit.
    pub open spec fn cached_len(self, c: int, t: int) -> usize {
        match self.warm {
            Some(warm) => if t == 0 && warm[c] {
                let wanted = self.cached_lens[self.target_len(c, t) as int];
                smaller(
                    smaller(wanted, self.base_tokens.len() as usize),
                    self.target_len(c, t),
                )
            } else {
                0
            },
            None => 0,
        }
    }

    /// How many tokens of turn `t` of conversation `c` are its own.
    pub open spec fn suffix_len(self, c: int, t: int) -> nat {
        (self.target_len(c, t) - self.cached_len(c, t)) as nat
    }

    /// Where the tokens of turn `t` of conversation `c` start. The stride of `max_turns` keeps
    /// the turns of different conversations apart.
    pub open spec fn start(self, c: int, t: int) -> int {
        self.offsets[c][t] + c * self.max_turns + t
    }

    /// Turn `t` of conversation `c` has no tokens, and no shared prefix goes before it.
    pub open spec fn has_no_text(self, c: int, t: int) -> bool {
        &&& self.target_len(c, t) == 0
        &&& t > 0 || self.shared_prefix_text.len() == 0
    }

    /// The parts of the plan agree, and its numbers are within machine limits.
    pub open spec fn fits(self) -> bool {
        &&& self.base_tokens.len() <= usize::MAX
        &&& self.turn_lens matches Some(lens) ==> {
            &&& lens.len() == self.offsets.len()
            &&& forall|c: int|
                0 <= c < lens.len() ==> (#[trigger] lens[c]).len() == self.offsets[c].len()
        }
        &&& self.warm matches Some(warm) ==> {
            &&& warm.len() == self.offsets.len()
            &&& forall|c: int|
                #![trigger self.target_len(c, 0)]
                self.has_turn(c, 0) && warm[c] ==> self.target_len(c, 0) < self.cached_lens.len()
        }
        &&& forall|c: int, t: int|
            #![trigger self.start(c, t)]
            self.has_turn(c, t) ==> {
                &&& self.target_len(c, t) <= usize::MAX / 2
                &&& self.start(c, t) + self.target_len(c, t) <= usize::MAX
            }
    }
}

/// The message of turn `t` of conversation `c`, with its length in tokens.
///
/// A cached part goes before the turn's own text; otherwise the shared prefix goes before the
/// text of turn 0. Where something goes before it, the whole is encoded again to count it.
pub open spec fn message_of(
    tokenizer: TokenizerModel,
    plan: PlanView,
    c: int,
    t: int,
) -> Result<(Seq<char>, usize), BenchErrorView> {
    match suffix_of(tokenizer, plan.start(c, t), plan.suffix_len(c, t)) {
        Err(error) => Err(error),
        Ok((text, tokens)) => if plan.cached_len(c, t) > 0 {
            match tokenizer.decoded(plan.base_tokens.take(plan.cached_len(c, t) as int), true) {
                Err(error) => Err(error),
                Ok(cached_text) => counted(tokenizer, cached_text + text),
            }
        } else if t == 0 && plan.shared_prefix_text.len() > 0 {
            counted(tokenizer, plan.shared_prefix_text + text)
        } else {
            Ok((text, tokens.len() as usize))
        },
    }
}

/// Turn `t` of conversation `c`.
pub open spec fn turn_of(
    tokenizer: TokenizerModel,
    plan: PlanView,
    c: int,
    t: int,
) -> Result<TurnView, BenchErrorView> {
    match message_of(tokenizer, plan, c, t) {
        Err(error) => Err(error),
        Ok((message, len)) => Ok(
            TurnView {
                user_message: message,
                user_message_len: len,
                expected_output_len: plan.output_len,
            },
        ),
    }
}

/// Makes turn `turn_idx` of conversation `conv_idx`.
pub fn random_turn<D, E>(
    tokenizer: &TokenizerKind<D, E>,
    plan: &RandomPlan,
    conv_idx: usize,
    turn_idx: usize,
) -> (result: Result<ConversationTurn, BenchError>) where
    D: Fn(&[u32], bool) -> Result<String, BenchError>,
    E: Fn(&str, bool) -> Result<Vec<u32>, BenchError>,

    requires
        tokenizer.callable(),
        tokenizer.allowed_tokens@.len() > 0,
        plan@.fits(),
        plan@.has_turn(conv_idx as int, turn_idx as int),
    ensures
        forall|model: TokenizerModel| #[trigger]
            tokenizer.behaves_as(model) ==> result_view(result) == turn_of(
                model,
                plan@,
                conv_idx as int,
                turn_idx as int,
            ),
        result matches Ok(turn) ==> turn.expected_output_len == plan.output_len,
        plan@.has_no_text(conv_idx as int, turn_idx as int) ==> result is Ok,
        tokenizer.infallible() ==> result is Ok,
{
    let ghost c = conv_idx as int;
    let ghost t = turn_idx as int;
    assert(plan@.start(c, t) + plan@.target_len(c, t) <= usize::MAX);
    assert(conv_idx * plan.max_turns >= 0) by (nonlinear_arith)
        requires
            conv_idx >= 0,
            plan.max_turns >= 0,
    ;
    let target_len: usize = match &plan.turn_lens {
        Some(lens) => {
            assert(plan@.turn_lens->0[c].len() == plan@.offsets[c].len());
            lens[conv_idx][turn_idx]
        },
        None => if turn_idx == 0 {
            plan.input_len
        } else {
            plan.per_turn_len
        },
    };
    assert(target_len == plan@.target_len(c, t));
    let cached: usize = match &plan.warm {
        Some(warm) => if turn_idx == 0 && warm[conv_idx] {
            assert(plan@.target_len(c, 0) < plan@.cached_lens.len());
            let wanted: usize = plan.cached_lens[target_len];
            let available: usize = plan.base_tokens.len();
            let kept: usize = if wanted <= available {
                wanted
            } else {
                available
            };
            if kept <= target_len {
                kept
            } else {
                target_len
            }
        } else {
            0
        },
        None => 0,
    };
    assert(cached == plan@.cached_len(c, t));
    let start: usize = plan.offsets[conv_idx][turn_idx] + conv_idx * plan.max_turns + turn_idx;
    let (suffix_text, suffix_tokens) = make_suffix(tokenizer, start, target_len - cached)?;
    let (user_message, token_len): (String, usize) = if cached > 0 {
        let cached_tokens = vstd::slice::slice_subrange(plan.base_tokens.as_slice(), 0, cached);
        assert(cached_tokens@ =~= plan@.base_tokens.take(cached as int));
        let mut combined: String = tokenizer.decode(cached_tokens, true)?;
        combined.append(suffix_text.as_str());
        let tokens: Vec<u32> = tokenizer.encode(combined.as_str(), false)?;
        (combined, tokens.len())
    } else if turn_idx == 0 && !plan.shared_prefix_text.is_empty() {
        let mut combined: String = String::new();
        combined.append(&*plan.shared_prefix_text);
        assert(combined@ =~= plan@.shared_prefix_text);
        combined.append(suffix_text.as_str());
        let tokens: Vec<u32> = tokenizer.encode(combined.as_str(), false)?;
        (combined, tokens.len())
    } else {
        (suffix_text, suffix_tokens.len())
    };
    Ok(
        ConversationTurn {
            user_message: shared_text(user_message),
            user_message_len: token_len,
            expected_output_len: plan.output_len,
        },
    )
}

/// The first `n` turns of conversation `c`.
pub open spec fn turns_of(
    tokenizer: TokenizerModel,
    plan: PlanView,
    c: int,
    n: nat,
) -> Result<Seq<TurnView>, BenchErrorView> {
    collected(|t: int| turn_of(tokenizer, plan, c, t), n)
}

/// Conversation `c`.
pub open spec fn conversation_of(
    tokenizer: TokenizerModel,
    plan: PlanView,
    c: int,
) -> Result<ConversationView, BenchErrorView> {
    match turns_of(tokenizer, plan, c, plan.offsets[c].len()) {
        Err(error) => Err(error),
        Ok(turns) => Ok(
            ConversationView { conversation_id: id_of(plan.request_id_prefix, c as nat), turns },
        ),
    }
}

/// Makes conversation `conv_idx`.
pub fn random_conversation<D, E>(
    tokenizer: &TokenizerKind<D, E>,
    plan: &RandomPlan,
    conv_idx: usize,
) -> (result: Result<MultiTurnConversation, BenchError>) where
    D: Fn(&[u32], bool) -> Result<String, BenchError>,
    E: Fn(&str, bool) -> Result<Vec<u32>, BenchError>,

    requires
        tokenizer.callable(),
        tokenizer.allowed_tokens@.len() > 0,
        plan@.fits(),
        conv_idx < plan@.offsets.len(),
    ensures
        forall|model: TokenizerModel| #[trigger]
            tokenizer.behaves_as(model) ==> result_view(result) == conversation_of(
                model,
                plan@,
                conv_idx as int,
            ),
        result matches Ok(conversation) ==> outlined(
            conversation@,
            plan.request_id_prefix@,
            conv_idx as nat,
            plan@.offsets[conv_idx as int].len(),
            plan.output_len,
        ),
        plan@.offsets[conv_idx as int].len() == 0 ==> result is Ok,
        tokenizer.infallible() ==> result is Ok,
{
    let mut turns: Vec<ConversationTurn> = Vec::new();
    let ghost c = conv_idx as int;
    let count: usize = plan.offsets[conv_idx].len();
    let mut turn_idx: usize = 0;
    assert(turns_view(turns@) =~= Seq::<TurnView>::empty());
    while turn_idx < count
        invariant
            tokenizer.callable(),
            tokenizer.allowed_tokens@.len() > 0,
            plan@.fits(),
            c == conv_idx < plan@.offsets.len(),
            turn_idx <= count,
            count == plan@.offsets[c].len(),
            turns@.len() == turn_idx,
            forall|t: int|
                0 <= t < turn_idx ==> (#[trigger] turns@[t]).expected_output_len
                    == plan.output_len,
            forall|model: TokenizerModel| #[trigger]
                tokenizer.behaves_as(model) ==> Ok::<Seq<TurnView>, BenchErrorView>(
                    turns_view(turns@),
                ) == turns_of(model, plan@, c, turn_idx as nat),
        decreases count - turn_idx,
    {
        let ghost before = turns@;
        proof {
            assert forall|model: TokenizerModel| #[trigger]
                tokenizer.behaves_as(model) implies stops_early(
                turns_of(model, plan@, c, (turn_idx + 1) as nat),
                turns_of(model, plan@, c, count as nat),
            ) by {
                law_collected_stops_at_first_error(
                    |t: int| turn_of(model, plan@, c, t),
                    (turn_idx + 1) as nat,
                    count as nat,
                );
            }
        }
        let turn: ConversationTurn = random_turn(tokenizer, plan, conv_idx, turn_idx)?;
        turns.push(turn);
        assert(turns_view(turns@) =~= turns_view(before).push(turn@));
        turn_idx = turn_idx + 1;
    }
    Ok(
        MultiTurnConversation {
            conversation_id: conversation_id(plan.request_id_prefix.as_str(), conv_idx),
            turns,
        },
    )
}

/// The conversations of a plan.
pub open spec fn conversations_of(
    tokenizer: TokenizerModel,
    plan: PlanView,
    n: nat,
) -> Result<Seq<ConversationView>, BenchErrorView> {
    collected(|c: int| conversation_of(tokenizer, plan, c), n)
}

/// Makes all conversations of a plan, one after the other.
pub fn random_conversations<D, E>(
    tokenizer: &TokenizerKind<D, E>,
    plan: &RandomPlan,
) -> (result: Result<Vec<MultiTurnConversation>, BenchError>) where
    D: Fn(&[u32], bool) -> Result<String, BenchError>,
    E: Fn(&str, bool) -> Result<Vec<u32>, BenchError>,

    requires
        tokenizer.callable(),
        tokenizer.allowed_tokens@.len() > 0,
        plan@.fits(),
    ensures
        forall|model: TokenizerModel| #[trigger]
            tokenizer.behaves_as(model) ==> conversations_result(result) == conversations_of(
                model,
                plan@,
                plan@.offsets.len(),
            ),
        result matches Ok(conversations) ==> conversations@.len() == plan@.offsets.len()
            && forall|c: int|
            0 <= c < conversations@.len() ==> outlined(
                (#[trigger] conversations@[c])@,
                plan.request_id_prefix@,
                c as nat,
                plan@.offsets[c].len(),
                plan.output_len,
            ),
        (forall|c: int| 0 <= c < plan@.offsets.len() ==> (#[trigger] plan@.offsets[c]).len() == 0)
            ==> result is Ok,
        tokenizer.infallible() ==> result is Ok,
{
    let mut conversations: Vec<MultiTurnConversation> = Vec::new();
    let count: usize = plan.offsets.len();
    let mut conv_idx: usize = 0;
    assert(conversations_view(conversations@) =~= Seq::<ConversationView>::empty());
    while conv_idx < count
        invariant
            tokenizer.callable(),
            tokenizer.allowed_tokens@.len() > 0,
            plan@.fits(),
            conv_idx <= count,
            count == plan@.offsets.len(),
            conversations@.len() == conv_idx,
            forall|c: int|
                0 <= c < conv_idx ==> outlined(
                    (#[trigger] conversations@[c])@,
                    plan.request_id_prefix@,
                    c as nat,
                    plan@.offsets[c].len(),
                    plan.output_len,
                ),
            forall|model: TokenizerModel| #[trigger]
                tokenizer.behaves_as(model) ==> Ok::<Seq<ConversationView>, BenchErrorView>(
                    conversations_view(conversations@),
                ) == conversations_of(model, plan@, conv_idx as nat),
        decreases count - conv_idx,
    {
        let ghost before = conversations@;
        proof {
            assert forall|model: TokenizerModel| #[trigger]
                tokenizer.behaves_as(model) implies stops_early(
                conversations_of(model, plan@, (conv_idx + 1) as nat),
                conversations_of(model, plan@, count as nat),
            ) by {
                law_collected_stops_at_first_error(
                    |c: int| conversation_of(model, plan@, c),
                    (conv_idx + 1) as nat,
                    count as nat,
                );
            }
        }
        let conversation: MultiTurnConversation = random_conversation(tokenizer, plan, conv_idx)?;
        conversations.push(conversation);
        assert(conversations_view(conversations@) =~= conversations_view(before).push(
            conversation@,
        ));
        conv_idx = conv_idx + 1;
    }
    Ok(conversations)
}

/// What is drawn for random conversations, as the plan that it makes without the texts.
pub open spec fn drawn_plan(
    vocab_size: u32,
    cfg: &MultiTurnRandomConfig,
    input_len: usize,
    per_turn_len: usize,
) -> PlanView {
    let (counts, words) = turn_counts(
        seeded_words(cfg.seed),
        cfg.min_turns,
        cfg.max_turns,
        cfg.num_conversations as nat,
    );
    PlanView {
        input_len,
        per_turn_len,
        max_turns: cfg.max_turns,
        output_len: cfg.output_len,
        request_id_prefix: cfg.request_id_prefix@,
        offsets: next_rows(words, 0, last_index(vocab_size as nat), counts).0,
        turn_lens: match cfg.turn_range {
            Some(range) => Some(
                next_len_rows(
                    seeded_words(cfg.seed.wrapping_add(0xBEEF)),
                    range.first,
                    range.later,
                    counts,
                ).0,
            ),
            None => None,
        },
        warm: if cfg.is_bimodal() {
            Some(
                next_choices(
                    seeded_words(cfg.seed.wrapping_add(0xF00D)),
                    cfg.cache_hit_fraction,
                    cfg.num_conversations as nat,
                ).0,
            )
        } else {
            None
        },
        base_tokens: Seq::empty(),
        cached_lens: cfg.cached_lens@,
        shared_prefix_text: Seq::empty(),
    }
}

/// The tokens of the shared cached base prefix; none where the prefix cache is off.
pub open spec fn base_of(
    tokenizer: TokenizerModel,
    cfg: &MultiTurnRandomConfig,
) -> Result<Seq<u32>, BenchErrorView> {
    if cfg.is_bimodal() && cfg.cache_base_len > 0 {
        match prompt_of(
            tokenizer,
            drawn_tokens(
                seeded_words(cfg.seed.wrapping_add(0xCACE)),
                tokenizer.allowed_tokens,
                cfg.cache_base_len as nat,
            ),
            cfg.cache_base_len as nat,
        ) {
            Err(error) => Err(error),
            Ok((_, tokens)) => Ok(tokens),
        }
    } else {
        Ok(Seq::empty())
    }
}

/// Makes the tokens of the shared cached base prefix, with a generator of their own.
///
/// They went through the tokenizer, so that what their leading slices decode to are prefixes of
/// each other.
fn make_base<D, E>(tokenizer: &TokenizerKind<D, E>, cfg: &MultiTurnRandomConfig) -> (result:
    Result<Vec<u32>, BenchError>) where
    D: Fn(&[u32], bool) -> Result<String, BenchError>,
    E: Fn(&str, bool) -> Result<Vec<u32>, BenchError>,

    requires
        tokenizer.callable(),
        tokenizer.allowed_tokens@.len() > 0,
        cfg.is_bimodal() ==> cfg.cache_base_len <= usize::MAX / 2,
    ensures
        forall|model: TokenizerModel| #[trigger]
            tokenizer.behaves_as(model) ==> result_view(result) == base_of(model, cfg),
        !cfg.is_bimodal() ==> result_view(result) == Ok::<Seq<u32>, BenchErrorView>(Seq::empty()),
        cfg.cache_base_len == 0 ==> result is Ok,
        tokenizer.infallible() ==> result is Ok,
{
    if cfg.has_cache() && cfg.cache_base_len > 0 {
        let mut rng = seeded(cfg.seed.wrapping_add(0xCACE));
        let drawn: Vec<u32> = draw_tokens(
            &mut rng,
            tokenizer.get_allowed_tokens(),
            cfg.cache_base_len,
        );
        let (_, tokens) = gen_prompt_to_target_len(
            tokenizer,
            drawn.as_slice(),
            cfg.cache_base_len,
        )?;
        Ok(tokens)
    } else {
        Ok(Vec::new())
    }
}

/// The complaint about cache fractions above one.
pub open spec fn cache_complaint() -> Seq<char> {
    "--random-cache-hit-fraction and --random-cache-ratio must be in [0, 1]"@
}

/// The plan of random conversations.
///
/// With the prefix cache on, the cached base prefix is the shared prefix, and `prefix_len` is
/// not used.
pub open spec fn plan_of(
    tokenizer: TokenizerModel,
    cfg: &MultiTurnRandomConfig,
) -> Result<PlanView, BenchErrorView> {
    match checked_setup(tokenizer.allowed_tokens, tokenizer.num_special_tokens, cfg) {
        Err(error) => Err(error),
        Ok((input_len, per_turn_len)) => if cfg.cache_refused() {
            Err(BenchErrorView::Config(cache_complaint()))
        } else {
            match base_of(tokenizer, cfg) {
                Err(error) => Err(error),
                Ok(base_tokens) => match shared_prefix_of(
                    tokenizer,
                    if cfg.is_bimodal() {
                        0
                    } else {
                        cfg.prefix_len
                    },
                    cfg.seed,
                ) {
                    Err(error) => Err(error),
                    Ok(shared_prefix_text) => Ok(
                        PlanView {
                            base_tokens,
                            shared_prefix_text,
                            ..drawn_plan(tokenizer.vocab_size, cfg, input_len, per_turn_len)
                        },
                    ),
                },
            }
        },
    }
}

/// The outcome of [`plan_random`], by value.
pub open spec fn plan_result(result: Result<RandomPlan, BenchError>) -> Result<
    PlanView,
    BenchErrorView,
> {
    match result {
        Ok(plan) => Ok(plan@),
        Err(error) => Err(error@),
    }
}

/// The configuration can be planned: where it passes the checks, there is something to draw
/// from, the table of cached lengths covers every turn 0, and machine limits are kept.
pub open spec fn can_plan<D, E>(
    tokenizer: &TokenizerKind<D, E>,
    cfg: &MultiTurnRandomConfig,
) -> bool where
    D: Fn(&[u32], bool) -> Result<String, BenchError>,
    E: Fn(&str, bool) -> Result<Vec<u32>, BenchError>,
 {
    &&& tokenizer.callable()
    &&& checked_setup(
        tokenizer.allowed_tokens@,
        tokenizer.num_special_tokens,
        cfg,
    ) matches Ok((input_len, per_turn_len)) ==> !cfg.cache_refused() ==> cfg.plannable(
        tokenizer.vocab_size,
        input_len,
        per_turn_len,
    )
}

/// Whether the configuration can be planned.
pub fn is_plannable<D, E>(
    tokenizer: &TokenizerKind<D, E>,
    cfg: &MultiTurnRandomConfig,
) -> (plannable: bool) where
    D: Fn(&[u32], bool) -> Result<String, BenchError>,
    E: Fn(&str, bool) -> Result<Vec<u32>, BenchError>,

    requires
        tokenizer.callable(),
    ensures
        plannable == can_plan(tokenizer, cfg),
{
    match check_setup(tokenizer.get_allowed_tokens(), tokenizer.num_special_tokens, cfg) {
        Err(_) => true,
        Ok((input_len, per_turn_len)) => {
            if cfg.refuses_cache() {
                return true;
            }
            let (first, later) = cfg.longest_turns(input_len, per_turn_len);
            let enough: bool = if cfg.has_cache() {
                cfg.cache_base_len <= usize::MAX / 2 && first < cfg.cached_lens.len()
            } else {
                cfg.prefix_len <= usize::MAX / 2
            };
            enough && cfg.can_draw(tokenizer.vocab_size, first) && cfg.can_draw(
                tokenizer.vocab_size,
                later,
            )
        },
    }
}

/// The place where a turn starts, and its length, stay within machine limits.
pub(crate) proof fn lemma_start_fits(
    offset: int,
    c: int,
    t: int,
    vocab_size: int,
    num_conversations: int,
    max_turns: int,
    len: int,
)
    requires
        0 <= offset < vocab_size,
        0 <= c < num_conversations,
        0 <= t < max_turns,
        vocab_size + num_conversations * max_turns + len <= usize::MAX,
    ensures
        offset + c * max_turns + t + len <= usize::MAX,
{
    assert(c * max_turns + max_turns <= num_conversations * max_turns) by (nonlinear_arith)
        requires
            c + 1 <= num_conversations,
            0 <= max_turns,
    ;
}

/// Draws everything that random conversations need, and makes the texts that they share.
///
/// Turn counts and offsets come from one generator; the cached base prefix, the shared prefix,
/// the warm conversations and the turn lengths each come from a generator of their own, so that
/// switching one of them on changes nothing of what the others draw.
pub fn plan_random<D, E>(
    tokenizer: &TokenizerKind<D, E>,
    cfg: &MultiTurnRandomConfig,
) -> (result: Result<RandomPlan, BenchError>) where
    D: Fn(&[u32], bool) -> Result<String, BenchError>,
    E: Fn(&str, bool) -> Result<Vec<u32>, BenchError>,

    requires
        can_plan(tokenizer, cfg),
    ensures
        forall|model: TokenizerModel| #[trigger]
            tokenizer.behaves_as(model) ==> plan_result(result) == plan_of(model, cfg),
        match checked_setup(tokenizer.allowed_tokens@, tokenizer.num_special_tokens, cfg) {
            Err(error) => plan_result(result) == Err::<PlanView, BenchErrorView>(error),
            Ok((input_len, per_turn_len)) => {
                &&& cfg.cache_refused() ==> plan_result(result) == Err::<PlanView, BenchErrorView>(
                    BenchErrorView::Config(cache_complaint()),
                )
                &&& !cfg.is_bimodal() && cfg.prefix_len == 0 ==> result is Ok
                &&& !cfg.cache_refused() && cfg.is_bimodal() && cfg.cache_base_len == 0
                    ==> result is Ok
                &&& !cfg.cache_refused() && tokenizer.infallible() ==> result is Ok
                &&& result matches Ok(plan) ==> {
                    &&& plan@ == (PlanView {
                        base_tokens: plan@.base_tokens,
                        shared_prefix_text: plan@.shared_prefix_text,
                        ..drawn_plan(tokenizer.vocab_size, cfg, input_len, per_turn_len)
                    })
                    &&& plan@.fits()
                    &&& plan@.offsets.len() == cfg.num_conversations
                    &&& forall|c: int|
                        0 <= c < cfg.num_conversations ==> cfg.min_turns <= (
                        #[trigger] plan@.offsets[c]).len() <= cfg.max_turns
                    &&& forall|c: int, t: int|
                        #![trigger plan@.target_len(c, t)]
                        plan@.has_turn(c, t) ==> cfg.is_turn_len(
                            input_len,
                            per_turn_len,
                            t,
                            plan@.target_len(c, t),
                        )
                    &&& cfg.is_bimodal() ==> plan@.shared_prefix_text.len() == 0
                    &&& !cfg.is_bimodal() ==> plan@.base_tokens.len() == 0
                }
            },
        },
{
    let allowed_tokens: &[u32] = tokenizer.get_allowed_tokens();
    let (input_len, per_turn_len) = check_setup(
        allowed_tokens,
        tokenizer.num_special_tokens,
        cfg,
    )?;
    let bimodal: bool = cfg.has_cache();
    if cfg.refuses_cache() {
        return Err(
            BenchError::Config(
                "--random-cache-hit-fraction and --random-cache-ratio must be in [0, 1]".to_string(),
            ),
        );
    }
    let base_tokens: Vec<u32> = make_base(tokenizer, cfg)?;
    let shared_prefix_text: Arc<str> = generate_shared_prefix_text(
        tokenizer,
        if bimodal {
            0
        } else {
            cfg.prefix_len
        },
        cfg.seed,
    )?;
    let mut rng = seeded(cfg.seed);
    let counts: Vec<usize> = draw_turn_counts(
        &mut rng,
        cfg.min_turns,
        cfg.max_turns,
        cfg.num_conversations,
    );
    let last: usize = if tokenizer.vocab_size == 0 {
        0
    } else {
        tokenizer.vocab_size as usize - 1
    };
    let offsets: Vec<Vec<usize>> = draw_rows(&mut rng, 0, last, &counts);
    let warm: Option<Vec<bool>> = if bimodal {
        let mut choices = seeded(cfg.seed.wrapping_add(0xF00D));
        Some(draw_choices(&mut choices, cfg.cache_hit_fraction, cfg.num_conversations))
    } else {
        None
    };
    let turn_lens: Option<Vec<Vec<usize>>> = match &cfg.turn_range {
        Some(range) => {
            let mut lens = seeded(cfg.seed.wrapping_add(0xBEEF));
            Some(draw_len_rows(&mut lens, range.first, range.later, &counts))
        },
        None => None,
    };
    let cached_lens: Vec<usize> = cfg.cached_lens.clone();
    assert(cached_lens@ =~= cfg.cached_lens@);
    let plan: RandomPlan = RandomPlan {
        input_len,
        per_turn_len,
        max_turns: cfg.max_turns,
        output_len: cfg.output_len,
        request_id_prefix: cfg.request_id_prefix.clone(),
        offsets,
        turn_lens,
        warm,
        base_tokens,
        cached_lens,
        shared_prefix_text,
    };
    proof {
        let drawn = drawn_plan(tokenizer.vocab_size, cfg, input_len, per_turn_len);
        assert(plan@ =~= (PlanView {
            base_tokens: plan@.base_tokens,
            shared_prefix_text: plan@.shared_prefix_text,
            ..drawn
        }));
        assert forall|c: int, t: int|
            #![trigger plan@.start(c, t)]
            plan@.has_turn(c, t) implies plan@.target_len(c, t) <= usize::MAX / 2 && plan@.start(
            c,
            t,
        ) + plan@.target_len(c, t) <= usize::MAX by {
            let len = if t == 0 {
                cfg.longest_first(input_len)
            } else {
                cfg.longest_later(per_turn_len)
            };
            assert(plan@.offsets[c] == plan.offsets@[c]@);
            assert(0 <= plan.offsets@[c]@[t] <= last);
            assert(plan@.target_len(c, t) <= len) by {
                if cfg.turn_range is Some {
                    let range = cfg.turn_range->0;
                    assert(plan.turn_lens->0@[c]@[t] <= longest(
                        bounds_of(range.first, range.later, t),
                    ));
                }
            }
            lemma_start_fits(
                plan@.offsets[c][t] as int,
                c,
                t,
                tokenizer.vocab_size as int,
                cfg.num_conversations as int,
                cfg.max_turns as int,
                plan@.target_len(c, t) as int,
            );
        }
        if bimodal {
            assert forall|c: int|
                #![trigger plan@.target_len(c, 0)]
                plan@.has_turn(c, 0) implies plan@.target_len(c, 0) < plan@.cached_lens.len() by {
                if cfg.turn_range is Some {
                    let range = cfg.turn_range->0;
                    assert(plan.turn_lens->0@[c]@[0] <= longest(
                        bounds_of(range.first, range.later, 0),
                    ));
                }
            }
        }
        assert forall|c: int| 0 <= c < cfg.num_conversations implies cfg.min_turns <= (
        #[trigger] plan@.offsets[c]).len() <= cfg.max_turns by {
            assert(plan.offsets@[c]@.len() == counts@[c]);
        }
        if cfg.turn_range is Some {
            assert forall|c: int| 0 <= c < plan@.turn_lens->0.len() implies (
            #[trigger] plan@.turn_lens->0[c]).len() == plan@.offsets[c].len() by {
                assert(plan.turn_lens->0@[c]@.len() == counts@[c]);
                assert(plan.offsets@[c]@.len() == counts@[c]);
            }
        }
        assert forall|c: int, t: int|
            #![trigger plan@.target_len(c, t)]
            plan@.has_turn(c, t) implies cfg.is_turn_len(
            input_len,
            per_turn_len,
            t,
            plan@.target_len(c, t),
        ) by {
            if cfg.turn_range is Some {
                let range = cfg.turn_range->0;
                assert(plan@.offsets[c] == plan.offsets@[c]@);
                assert(bounds_of(range.first, range.later, t).low <= plan.turn_lens->0@[c]@[t]
                    <= longest(bounds_of(range.first, range.later, t)));
            }
        }
        assert(plan.base_tokens.len() <= usize::MAX);
    }
    Ok(plan)
}

} // verus!
