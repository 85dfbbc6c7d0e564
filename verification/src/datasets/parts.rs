//! The parts that conversations are made of, whatever the mode.
use std::sync::Arc;
use vstd::prelude::*;
use crate::datasets::config::MultiTurnRandomConfig;
use crate::datasets::draws::{draw_tokens, drawn_tokens};
use crate::datasets::prompt::{gen_prompt_to_target_len, make_token_seq, prompt_of, token_seq};
use crate::datasets::{ConversationView, id_of, shared_text};
use crate::error::{BenchError, BenchErrorView, result_view};
use crate::rng::{seeded, seeded_words};
use crate::tokenizer::{TokenizerKind, TokenizerModel};

verus! {

/// The text that a drawn prefix of `prefix_len` tokens gives; none for length 0.
pub open spec fn shared_prefix_of(
    tokenizer: TokenizerModel,
    prefix_len: usize,
    seed: u64,
) -> Result<Seq<char>, BenchErrorView> {
    if prefix_len == 0 {
        Ok(Seq::empty())
    } else {
        match prompt_of(
            tokenizer,
            drawn_tokens(
                seeded_words(seed.wrapping_add(0xDEAD)),
                tokenizer.allowed_tokens,
                prefix_len as nat,
            ),
            prefix_len as nat,
        ) {
            Ok((text, _)) => Ok(text),
            Err(error) => Err(error),
        }
    }
}

/// The outcome of [`generate_shared_prefix_text`], by value.
pub open spec fn shared_result(result: Result<Arc<str>, BenchError>) -> Result<
    Seq<char>,
    BenchErrorView,
> {
    match result {
        Ok(text) => Ok(text@),
        Err(error) => Err(error@),
    }
}

/// The random prefix text that conversations share, drawn by a generator of its own.
pub fn generate_shared_prefix_text<D, E>(
    tokenizer: &TokenizerKind<D, E>,
    prefix_len: usize,
    seed: u64,
) -> (result: Result<Arc<str>, BenchError>) where
    D: Fn(&[u32], bool) -> Result<String, BenchError>,
    E: Fn(&str, bool) -> Result<Vec<u32>, BenchError>,

    requires
        tokenizer.callable(),
        prefix_len > 0 ==> tokenizer.allowed_tokens@.len() > 0,
        prefix_len <= usize::MAX / 2,
    ensures
        forall|model: TokenizerModel| #[trigger]
            tokenizer.behaves_as(model) ==> shared_result(result) == shared_prefix_of(
                model,
                prefix_len,
                seed,
            ),
        prefix_len == 0 ==> shared_result(result) == Ok::<Seq<char>, BenchErrorView>(
            Seq::empty(),
        ),
        tokenizer.infallible() ==> result is Ok,
{
    if prefix_len == 0 {
        return Ok(shared_text(String::new()));
    }
    let mut rng = seeded(seed.wrapping_add(0xDEAD));
    let tokens: Vec<u32> = draw_tokens(&mut rng, tokenizer.get_allowed_tokens(), prefix_len);
    let (text, _) = gen_prompt_to_target_len(tokenizer, tokens.as_slice(), prefix_len)?;
    Ok(shared_text(text))
}

/// The tokens of a turn that are its own, and their text.
pub open spec fn suffix_of(
    tokenizer: TokenizerModel,
    start: int,
    len: nat,
) -> Result<(Seq<char>, Seq<u32>), BenchErrorView> {
    if len > 0 {
        prompt_of(tokenizer, token_seq(tokenizer.allowed_tokens, start, len), len)
    } else {
        Ok((Seq::empty(), Seq::empty()))
    }
}

/// Makes the tokens of a turn that are its own, and their text.
pub fn make_suffix<D, E>(tokenizer: &TokenizerKind<D, E>, start: usize, len: usize) -> (result:
    Result<(String, Vec<u32>), BenchError>) where
    D: Fn(&[u32], bool) -> Result<String, BenchError>,
    E: Fn(&str, bool) -> Result<Vec<u32>, BenchError>,

    requires
        tokenizer.callable(),
        tokenizer.allowed_tokens@.len() > 0,
        len <= usize::MAX / 2,
        start + len <= usize::MAX,
    ensures
        forall|model: TokenizerModel| #[trigger]
            tokenizer.behaves_as(model) ==> result_view(result) == suffix_of(
                model,
                start as int,
                len as nat,
            ),
        result matches Ok((_, tokens)) ==> tokens@.len() <= len,
        len == 0 ==> result is Ok,
        tokenizer.infallible() ==> result is Ok,
{
    if len > 0 {
        let tokens: Vec<u32> = make_token_seq(tokenizer.get_allowed_tokens(), start, len);
        gen_prompt_to_target_len(tokenizer, tokens.as_slice(), len)
    } else {
        Ok((String::new(), Vec::new()))
    }
}

/// A message, with the number of tokens that it encodes to.
pub open spec fn counted(tokenizer: TokenizerModel, message: Seq<char>) -> Result<
    (Seq<char>, usize),
    BenchErrorView,
> {
    match tokenizer.encoded(message, false) {
        Ok(tokens) => Ok((message, tokens.len() as usize)),
        Err(error) => Err(error),
    }
}

/// `conversation` is the one with index `c`: its identifier, its number of turns and the output
/// length of each are as they must be, whatever the tokenizer does.
pub open spec fn outlined(
    conversation: ConversationView,
    request_id_prefix: Seq<char>,
    c: nat,
    turn_count: nat,
    output_len: usize,
) -> bool {
    &&& conversation.conversation_id == id_of(request_id_prefix, c)
    &&& conversation.turns.len() == turn_count
    &&& forall|t: int|
        0 <= t < turn_count ==> (#[trigger] conversation.turns[t]).expected_output_len
            == output_len
}

/// `conversations` are as many as were asked for, with the wanted identifiers and output lengths,
/// and each has as many turns as `rows` has places for it, within the wanted bounds.
pub open spec fn laid_out(
    conversations: Seq<ConversationView>,
    cfg: &MultiTurnRandomConfig,
    rows: Seq<Seq<usize>>,
) -> bool {
    &&& conversations.len() == cfg.num_conversations
    &&& forall|c: int|
        0 <= c < conversations.len() ==> {
            &&& outlined(
                #[trigger] conversations[c],
                cfg.request_id_prefix@,
                c as nat,
                rows[c].len(),
                cfg.output_len,
            )
            &&& cfg.min_turns <= conversations[c].turns.len() <= cfg.max_turns
        }
}

} // verus!
