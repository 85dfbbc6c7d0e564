//! Prompts of a wanted length: token sequences, and the loop that fits decoded text to them.
use vstd::prelude::*;
use crate::error::{BenchError, BenchErrorView, result_view};
use crate::tokenizer::{TokenizerKind, TokenizerModel};

verus! {

/// How often a prompt is refitted before a near miss is accepted.
pub const MAX_RETRY: usize = 20;

/// `len` tokens taken in a circle from `allowed_tokens`, from `offset` on.
pub open spec fn token_seq(allowed_tokens: Seq<u32>, offset: int, len: nat) -> Seq<u32> {
    Seq::new(len, |i: int| allowed_tokens[(offset + i) % (allowed_tokens.len() as int)])
}

/// Generate a deterministic token sequence from allowed tokens using offset+modulo.
pub fn make_token_seq(allowed_tokens: &[u32], offset: usize, len: usize) -> (tokens: Vec<u32>)
    requires
        len > 0 ==> allowed_tokens@.len() > 0 && offset + len - 1 <= usize::MAX,
    ensures
        tokens@ == token_seq(allowed_tokens@, offset as int, len as nat),
{
    let mut tokens: Vec<u32> = Vec::new();
    let mut i: usize = 0;
    while i < len
        invariant
            i <= len,
            len > 0 ==> allowed_tokens@.len() > 0 && offset + len - 1 <= usize::MAX,
            tokens@ == token_seq(allowed_tokens@, offset as int, i as nat),
        decreases len - i,
    {
        tokens.push(allowed_tokens[(offset + i) % allowed_tokens.len()]);
        i = i + 1;
        assert(tokens@ =~= token_seq(allowed_tokens@, offset as int, i as nat));
    }
    tokens
}

/// The token that fills place `len + j` of a sequence that had `len` tokens: the position counts
/// twice, once for the tokens already there and once for the tokens already added.
pub open spec fn fill_token(allowed_tokens: Seq<u32>, vocab_size: u32, len: nat, j: int) -> u32 {
    if allowed_tokens.len() == 0 {
        ((len + 2 * j) % (vocab_size as int)) as u32
    } else {
        allowed_tokens[(len + 2 * j) % (allowed_tokens.len() as int)]
    }
}

/// `tokens` cut down or filled up to `target_len`.
pub open spec fn fitted(
    tokens: Seq<u32>,
    target_len: nat,
    allowed_tokens: Seq<u32>,
    vocab_size: u32,
) -> Seq<u32> {
    if tokens.len() < target_len {
        tokens + Seq::new(
            (target_len - tokens.len()) as nat,
            |j: int| fill_token(allowed_tokens, vocab_size, tokens.len(), j),
        )
    } else {
        tokens.take(target_len as int)
    }
}

/// Cuts down or fills up `tokens` to `target_len`, with tokens that are allowed or, where none
/// is, with numbers below the vocabulary's size.
pub fn fit_tokens(
    tokens: &mut Vec<u32>,
    target_len: usize,
    allowed_tokens: &[u32],
    vocab_size: u32,
)
    requires
        target_len <= usize::MAX / 2,
        old(tokens)@.len() < target_len ==> allowed_tokens@.len() > 0 || vocab_size > 0,
    ensures
        final(tokens)@ == fitted(old(tokens)@, target_len as nat, allowed_tokens@, vocab_size),
{
    let ghost before = tokens@;
    let len: usize = tokens.len();
    if len < target_len {
        let mut j: usize = 0;
        while j < target_len - len
            invariant
                len == before.len(),
                len < target_len <= usize::MAX / 2,
                0 <= j <= target_len - len,
                allowed_tokens@.len() > 0 || vocab_size > 0,
                tokens@ == before + Seq::new(
                    j as nat,
                    |k: int| fill_token(allowed_tokens@, vocab_size, before.len(), k),
                ),
            decreases target_len - len - j,
        {
            let at: usize = tokens.len() + j;
            if allowed_tokens.len() == 0 {
                tokens.push((at % (vocab_size as usize)) as u32);
            } else {
                tokens.push(allowed_tokens[at % allowed_tokens.len()]);
            }
            j = j + 1;
            assert(tokens@ =~= before + Seq::new(
                j as nat,
                |k: int| fill_token(allowed_tokens@, vocab_size, before.len(), k),
            ));
        }
    } else {
        tokens.truncate(target_len);
    }
    assert(tokens@ =~= fitted(before, target_len as nat, allowed_tokens@, vocab_size));
}

/// `tokens` cut down to at most `target_len`.
pub open spec fn cut(tokens: Seq<u32>, target_len: nat) -> Seq<u32> {
    if tokens.len() > target_len {
        tokens.take(target_len as int)
    } else {
        tokens
    }
}

/// The prompt that fitting `tokens` to `target_len` gives, after `retry` tries.
///
/// Each try decodes and encodes again. The first that gives `target_len` tokens wins; the last
/// one is cut down to `target_len` and decoded once more, so that text and tokens agree.
pub open spec fn prompt_after(
    tokenizer: TokenizerModel,
    tokens: Seq<u32>,
    target_len: nat,
    retry: nat,
) -> Result<(Seq<char>, Seq<u32>), BenchErrorView>
    decreases MAX_RETRY - retry,
{
    match tokenizer.decoded(tokens, true) {
        Err(error) => Err(error),
        Ok(prompt) => match tokenizer.encoded(prompt, false) {
            Err(error) => Err(error),
            Ok(encoded) => if retry >= MAX_RETRY {
                match tokenizer.decoded(cut(encoded, target_len), true) {
                    Err(error) => Err(error),
                    Ok(text) => Ok((text, cut(encoded, target_len))),
                }
            } else if encoded.len() == target_len {
                Ok((prompt, encoded))
            } else {
                prompt_after(
                    tokenizer,
                    fitted(
                        encoded,
                        target_len,
                        tokenizer.allowed_tokens,
                        tokenizer.vocab_size,
                    ),
                    target_len,
                    retry + 1,
                )
            },
        },
    }
}

/// The prompt that fitting `tokens` to `target_len` gives.
pub open spec fn prompt_of(
    tokenizer: TokenizerModel,
    tokens: Seq<u32>,
    target_len: nat,
) -> Result<(Seq<char>, Seq<u32>), BenchErrorView> {
    prompt_after(tokenizer, tokens, target_len, 0)
}

/// What the tokenizer must offer so that prompts of `target_len` can be fitted: something to fill
/// them up with, unless they never come out too short.
pub open spec fn can_fit<D, E>(tokenizer: &TokenizerKind<D, E>, target_len: nat) -> bool where
    D: Fn(&[u32], bool) -> Result<String, BenchError>,
    E: Fn(&str, bool) -> Result<Vec<u32>, BenchError>,
 {
    &&& tokenizer.callable()
    &&& target_len <= usize::MAX / 2
    &&& target_len > 0 ==> {
        ||| tokenizer.allowed_tokens@.len() > 0
        ||| tokenizer.vocab_size > 0
        ||| forall|text: Seq<char>, tokens: Seq<u32>| #[trigger]
            tokenizer.may_encode(text, false, Ok(tokens)) ==> tokens.len() >= target_len
    }
}

/// Ensure decoded-then-encoded prompt length matches the target.
///
/// BPE tokenizers can oscillate by one token on certain boundaries, so after the last retry a
/// prompt that is too short is accepted as it is.
pub fn gen_prompt_to_target_len<D, E>(
    tokenizer: &TokenizerKind<D, E>,
    token_sequence: &[u32],
    target_len: usize,
) -> (result: Result<(String, Vec<u32>), BenchError>) where
    D: Fn(&[u32], bool) -> Result<String, BenchError>,
    E: Fn(&str, bool) -> Result<Vec<u32>, BenchError>,

    requires
        can_fit(tokenizer, target_len as nat),
    ensures
        forall|model: TokenizerModel| #[trigger]
            tokenizer.behaves_as(model) ==> result_view(result) == prompt_of(
                model,
                token_sequence@,
                target_len as nat,
            ),
        result matches Ok((text, tokens)) ==> tokens@.len() <= target_len && (
        tokenizer.may_encode(text@, false, Ok(tokens@)) || tokenizer.may_decode(
            tokens@,
            true,
            Ok(text@),
        )),
        tokenizer.infallible() ==> result is Ok,
{
    let mut tokens: Vec<u32> = vstd::slice::slice_to_vec(token_sequence);
    let mut retry: usize = 0;
    loop
        invariant
            can_fit(tokenizer, target_len as nat),
            retry <= MAX_RETRY,
            forall|model: TokenizerModel| #[trigger]
                tokenizer.behaves_as(model) ==> prompt_after(
                    model,
                    tokens@,
                    target_len as nat,
                    retry as nat,
                ) == prompt_of(model, token_sequence@, target_len as nat),
        decreases MAX_RETRY - retry,
    {
        let prompt: String = tokenizer.decode(tokens.as_slice(), true)?;
        tokens = tokenizer.encode(prompt.as_str(), false)?;
        if retry >= MAX_RETRY {
            let ghost encoded = tokens@;
            if tokens.len() > target_len {
                tokens.truncate(target_len);
            }
            assert(tokens@ =~= cut(encoded, target_len as nat));
            let text: String = tokenizer.decode(tokens.as_slice(), true)?;
            return Ok((text, tokens));
        }
        if tokens.len() == target_len {
            return Ok((prompt, tokens));
        }
        fit_tokens(
            &mut tokens,
            target_len,
            tokenizer.get_allowed_tokens(),
            tokenizer.vocab_size,
        );
        retry = retry + 1;
    }
}

/// A token sequence is made of allowed tokens, and starts over after a full circle.
pub proof fn law_token_seq_is_circular(allowed_tokens: Seq<u32>, offset: int, len: nat)
    requires
        allowed_tokens.len() > 0,
        offset >= 0,
    ensures
        forall|i: int|
            0 <= i < len ==> allowed_tokens.contains(
                #[trigger] token_seq(allowed_tokens, offset, len)[i],
            ),
        token_seq(allowed_tokens, offset + allowed_tokens.len(), len) == token_seq(
            allowed_tokens,
            offset,
            len,
        ),
{
    let n = allowed_tokens.len() as int;
    assert forall|i: int| 0 <= i < len implies allowed_tokens.contains(
        #[trigger] token_seq(allowed_tokens, offset, len)[i],
    ) by {
        assert(allowed_tokens[(offset + i) % n] == token_seq(allowed_tokens, offset, len)[i]);
    }
    assert forall|i: int| 0 <= i < len implies #[trigger] token_seq(
        allowed_tokens,
        offset + n,
        len,
    )[i] == token_seq(allowed_tokens, offset, len)[i] by {
        vstd::arithmetic::div_mod::lemma_mod_add_multiples_vanish(offset + i, n);
        assert((n + (offset + i)) % n == (offset + i) % n);
    }
    assert(token_seq(allowed_tokens, offset + n, len) =~= token_seq(allowed_tokens, offset, len));
}

/// Fitting gives exactly the wanted length, and keeps the leading tokens.
pub proof fn law_fitted_has_target_len(
    tokens: Seq<u32>,
    target_len: nat,
    allowed_tokens: Seq<u32>,
    vocab_size: u32,
)
    ensures
        fitted(tokens, target_len, allowed_tokens, vocab_size).len() == target_len,
        forall|i: int|
            0 <= i < target_len && i < tokens.len() ==> #[trigger] fitted(
                tokens,
                target_len,
                allowed_tokens,
                vocab_size,
            )[i] == tokens[i],
{
}

/// A prompt never has more tokens than the target.
pub proof fn law_prompt_is_not_too_long(
    tokenizer: TokenizerModel,
    tokens: Seq<u32>,
    target_len: nat,
    retry: nat,
)
    ensures
        prompt_after(tokenizer, tokens, target_len, retry) matches Ok((_, kept)) ==> kept.len()
            <= target_len,
    decreases MAX_RETRY - retry,
{
    if let Ok(prompt) = tokenizer.decoded(tokens, true) {
        if let Ok(encoded) = tokenizer.encoded(prompt, false) {
            if retry < MAX_RETRY && encoded.len() != target_len {
                law_prompt_is_not_too_long(
                    tokenizer,
                    fitted(
                        encoded,
                        target_len,
                        tokenizer.allowed_tokens,
                        tokenizer.vocab_size,
                    ),
                    target_len,
                    retry + 1,
                );
            }
        }
    }
}

/// The text and the tokens of a prompt agree: the text encodes to the tokens, or, after the last
/// retry, the tokens decode to the text.
pub proof fn law_prompt_text_matches_tokens(
    tokenizer: TokenizerModel,
    tokens: Seq<u32>,
    target_len: nat,
    retry: nat,
)
    ensures
        prompt_after(tokenizer, tokens, target_len, retry) matches Ok((text, kept)) ==> {
            ||| kept.len() == target_len && tokenizer.encoded(text, false) == Ok::<
                Seq<u32>,
                BenchErrorView,
            >(kept)
            ||| tokenizer.decoded(kept, true) == Ok::<Seq<char>, BenchErrorView>(text)
        },
    decreases MAX_RETRY - retry,
{
    if let Ok(prompt) = tokenizer.decoded(tokens, true) {
        if let Ok(encoded) = tokenizer.encoded(prompt, false) {
            if retry < MAX_RETRY && encoded.len() != target_len {
                law_prompt_text_matches_tokens(
                    tokenizer,
                    fitted(
                        encoded,
                        target_len,
                        tokenizer.allowed_tokens,
                        tokenizer.vocab_size,
                    ),
                    target_len,
                    retry + 1,
                );
            }
        }
    }
}

/// Tokens that decode to a text that encodes to them are a prompt as they are.
pub proof fn law_stable_tokens_are_kept(
    tokenizer: TokenizerModel,
    tokens: Seq<u32>,
    text: Seq<char>,
)
    requires
        tokenizer.decoded(tokens, true) == Ok::<Seq<char>, BenchErrorView>(text),
        tokenizer.encoded(text, false) == Ok::<Seq<u32>, BenchErrorView>(tokens),
    ensures
        prompt_of(tokenizer, tokens, tokens.len()) == Ok::<
            (Seq<char>, Seq<u32>),
            BenchErrorView,
        >((text, tokens)),
{
}

/// A token sequence holds the allowed tokens one after the other, from the offset on.
pub proof fn law_token_seq_steps_through_the_allowed(
    allowed_tokens: Seq<u32>,
    offset: int,
    len: nat,
    i: int,
)
    requires
        0 <= i < len,
    ensures
        token_seq(allowed_tokens, offset, len).len() == len,
        token_seq(allowed_tokens, offset, len)[i] == allowed_tokens[(offset + i) % (
        allowed_tokens.len() as int)],
{
}

/// Tokens that are added count from the length that was there, two places for each.
pub proof fn law_added_tokens_step_by_two(
    tokens: Seq<u32>,
    target_len: nat,
    allowed_tokens: Seq<u32>,
    vocab_size: u32,
    i: int,
)
    requires
        tokens.len() <= i < target_len,
    ensures
        allowed_tokens.len() > 0 ==> fitted(tokens, target_len, allowed_tokens, vocab_size)[i]
            == allowed_tokens[(2 * i - tokens.len()) % (allowed_tokens.len() as int)],
        allowed_tokens.len() == 0 && vocab_size > 0 ==> fitted(
            tokens,
            target_len,
            allowed_tokens,
            vocab_size,
        )[i] == (2 * i - tokens.len()) % (vocab_size as int),
{
    assert(tokens.len() + 2 * (i - tokens.len()) == 2 * i - tokens.len());
}

/// Tries lead to each other: each but the last has a wrong length, and the next begins with its
/// tokens cut down or filled up.
proof fn lemma_tries_lead_on(
    tokenizer: TokenizerModel,
    target_len: nat,
    inputs: Seq<Seq<u32>>,
    prompts: Seq<Seq<char>>,
    encodings: Seq<Seq<u32>>,
    k: nat,
)
    requires
        k <= MAX_RETRY,
        inputs.len() > k,
        prompts.len() >= k,
        encodings.len() >= k,
        forall|i: int|
            0 <= i < k ==> tokenizer.decoded(inputs[i], true) == Ok::<Seq<char>, BenchErrorView>(
                #[trigger] prompts[i],
            ) && tokenizer.encoded(prompts[i], false) == Ok::<Seq<u32>, BenchErrorView>(
                encodings[i],
            ),
        forall|i: int|
            0 <= i < k ==> (#[trigger] encodings[i]).len() != target_len && inputs[i + 1]
                == fitted(
                encodings[i],
                target_len,
                tokenizer.allowed_tokens,
                tokenizer.vocab_size,
            ),
    ensures
        prompt_of(tokenizer, inputs[0], target_len) == prompt_after(
            tokenizer,
            inputs[k as int],
            target_len,
            k,
        ),
    decreases k,
{
    if k > 0 {
        let i = (k - 1) as nat;
        lemma_tries_lead_on(tokenizer, target_len, inputs, prompts, encodings, i);
        assert(tokenizer.decoded(inputs[i as int], true) == Ok::<Seq<char>, BenchErrorView>(
            prompts[i as int],
        ));
        assert(encodings[i as int].len() != target_len);
    }
}

/// The tokens of a try that came out too long or too short, cut down or filled up.
proof fn lemma_refit_is_fitted(
    encoding: Seq<u32>,
    target_len: nat,
    allowed_tokens: Seq<u32>,
    vocab_size: u32,
    next: Seq<u32>,
)
    requires
        encoding.len() != target_len,
        vocab_size > 0 || allowed_tokens.len() > 0,
        next.len() == target_len,
        forall|j: int|
            0 <= j < target_len ==> #[trigger] next[j] == (if j < encoding.len() {
                encoding[j] as int
            } else if allowed_tokens.len() > 0 {
                allowed_tokens[(2 * j - encoding.len()) % (allowed_tokens.len() as int)] as int
            } else {
                (2 * j - encoding.len()) % (vocab_size as int)
            }),
    ensures
        next == fitted(encoding, target_len, allowed_tokens, vocab_size),
{
    let whole = fitted(encoding, target_len, allowed_tokens, vocab_size);
    law_fitted_has_target_len(encoding, target_len, allowed_tokens, vocab_size);
    assert forall|j: int| 0 <= j < target_len implies #[trigger] next[j] == whole[j] by {
        if j >= encoding.len() {
            law_added_tokens_step_by_two(encoding, target_len, allowed_tokens, vocab_size, j);
        }
    }
    assert(next =~= whole);
}

/// The first try, of up to 20, that decodes and encodes to exactly the wanted number of tokens is
/// the prompt. A try with another number is never accepted: the next one begins with its tokens,
/// cut down to the wanted number or filled up to it with allowed tokens.
pub proof fn law_first_try_of_the_wanted_length_wins(
    tokenizer: TokenizerModel,
    target_len: nat,
    inputs: Seq<Seq<u32>>,
    prompts: Seq<Seq<char>>,
    encodings: Seq<Seq<u32>>,
    k: nat,
)
    requires
        k < 20,
        inputs.len() == k + 1,
        prompts.len() == k + 1,
        encodings.len() == k + 1,
        tokenizer.vocab_size > 0 || tokenizer.allowed_tokens.len() > 0,
        forall|i: int|
            0 <= i <= k ==> tokenizer.decoded(inputs[i], true) == Ok::<Seq<char>, BenchErrorView>(
                #[trigger] prompts[i],
            ) && tokenizer.encoded(prompts[i], false) == Ok::<Seq<u32>, BenchErrorView>(
                encodings[i],
            ),
        forall|i: int|
            0 <= i < k ==> (#[trigger] encodings[i]).len() != target_len && inputs[i + 1].len()
                == target_len,
        forall|i: int, j: int|
            0 <= i < k && 0 <= j < target_len ==> #[trigger] inputs[i + 1][j] == (if j
                < encodings[i].len() {
                encodings[i][j] as int
            } else if tokenizer.allowed_tokens.len() > 0 {
                tokenizer.allowed_tokens[(2 * j - encodings[i].len()) % (
                tokenizer.allowed_tokens.len() as int)] as int
            } else {
                (2 * j - encodings[i].len()) % (tokenizer.vocab_size as int)
            }),
        encodings[k as int].len() == target_len,
    ensures
        prompt_of(tokenizer, inputs[0], target_len) == Ok::<
            (Seq<char>, Seq<u32>),
            BenchErrorView,
        >((prompts[k as int], encodings[k as int])),
{
    assert forall|i: int| 0 <= i < k implies (#[trigger] encodings[i]).len() != target_len
        && inputs[i + 1] == fitted(
        encodings[i],
        target_len,
        tokenizer.allowed_tokens,
        tokenizer.vocab_size,
    ) by {
        assert forall|j: int| 0 <= j < target_len implies #[trigger] inputs[i + 1][j] == (if j
            < encodings[i].len() {
            encodings[i][j] as int
        } else if tokenizer.allowed_tokens.len() > 0 {
            tokenizer.allowed_tokens[(2 * j - encodings[i].len()) % (
            tokenizer.allowed_tokens.len() as int)] as int
        } else {
            (2 * j - encodings[i].len()) % (tokenizer.vocab_size as int)
        }) by {}
        lemma_refit_is_fitted(
            encodings[i],
            target_len,
            tokenizer.allowed_tokens,
            tokenizer.vocab_size,
            inputs[i + 1],
        );
    }
    lemma_tries_lead_on(tokenizer, target_len, inputs, prompts, encodings, k);
    assert(tokenizer.decoded(inputs[k as int], true) == Ok::<Seq<char>, BenchErrorView>(
        prompts[k as int],
    ));
}

/// Only after 20 tries of a wrong length is the next one taken as it is: cut down to the wanted
/// number of tokens if it is too long, accepted if it is too short, and decoded once more.
pub proof fn law_last_try_is_taken_as_it_is(
    tokenizer: TokenizerModel,
    target_len: nat,
    inputs: Seq<Seq<u32>>,
    prompts: Seq<Seq<char>>,
    encodings: Seq<Seq<u32>>,
    kept: Seq<u32>,
)
    requires
        inputs.len() == 21,
        prompts.len() == 21,
        encodings.len() == 21,
        tokenizer.vocab_size > 0 || tokenizer.allowed_tokens.len() > 0,
        forall|i: int|
            0 <= i < 21 ==> tokenizer.decoded(inputs[i], true) == Ok::<Seq<char>, BenchErrorView>(
                #[trigger] prompts[i],
            ) && tokenizer.encoded(prompts[i], false) == Ok::<Seq<u32>, BenchErrorView>(
                encodings[i],
            ),
        forall|i: int|
            0 <= i < 20 ==> (#[trigger] encodings[i]).len() != target_len && inputs[i + 1].len()
                == target_len,
        forall|i: int, j: int|
            0 <= i < 20 && 0 <= j < target_len ==> #[trigger] inputs[i + 1][j] == (if j
                < encodings[i].len() {
                encodings[i][j] as int
            } else if tokenizer.allowed_tokens.len() > 0 {
                tokenizer.allowed_tokens[(2 * j - encodings[i].len()) % (
                tokenizer.allowed_tokens.len() as int)] as int
            } else {
                (2 * j - encodings[i].len()) % (tokenizer.vocab_size as int)
            }),
        encodings[20].len() <= target_len ==> kept == encodings[20],
        encodings[20].len() > target_len ==> kept == encodings[20].take(target_len as int),
    ensures
        match tokenizer.decoded(kept, true) {
            Ok(text) => prompt_of(tokenizer, inputs[0], target_len) == Ok::<
                (Seq<char>, Seq<u32>),
                BenchErrorView,
            >((text, kept)),
            Err(error) => prompt_of(tokenizer, inputs[0], target_len) == Err::<
                (Seq<char>, Seq<u32>),
                BenchErrorView,
            >(error),
        },
{
    assert forall|i: int| 0 <= i < 20 implies (#[trigger] encodings[i]).len() != target_len
        && inputs[i + 1] == fitted(
        encodings[i],
        target_len,
        tokenizer.allowed_tokens,
        tokenizer.vocab_size,
    ) by {
        assert forall|j: int| 0 <= j < target_len implies #[trigger] inputs[i + 1][j] == (if j
            < encodings[i].len() {
            encodings[i][j] as int
        } else if tokenizer.allowed_tokens.len() > 0 {
            tokenizer.allowed_tokens[(2 * j - encodings[i].len()) % (
            tokenizer.allowed_tokens.len() as int)] as int
        } else {
            (2 * j - encodings[i].len()) % (tokenizer.vocab_size as int)
        }) by {}
        lemma_refit_is_fitted(
            encodings[i],
            target_len,
            tokenizer.allowed_tokens,
            tokenizer.vocab_size,
            inputs[i + 1],
        );
    }
    lemma_tries_lead_on(tokenizer, target_len, inputs, prompts, encodings, 20);
    assert(tokenizer.decoded(inputs[20], true) == Ok::<Seq<char>, BenchErrorView>(prompts[20]));
}

/// A prompt that is shorter than was wanted has gone through 20 tries, none of which had the
/// wanted length.
pub proof fn law_short_prompts_had_all_tries(
    tokenizer: TokenizerModel,
    tokens: Seq<u32>,
    target_len: nat,
) -> (encodings: Seq<Seq<u32>>)
    requires
        prompt_of(tokenizer, tokens, target_len) matches Ok((_, kept)) && kept.len() < target_len,
    ensures
        encodings.len() == 21,
        forall|i: int| 0 <= i < 20 ==> (#[trigger] encodings[i]).len() != target_len,
        prompt_of(tokenizer, tokens, target_len)->Ok_0.1 == encodings[20],
        tokenizer.decoded(tokens, true) matches Ok(text) && tokenizer.encoded(text, false) == Ok::<
            Seq<u32>,
            BenchErrorView,
        >(encodings[0]),
        forall|i: int|
            0 <= i < 20 ==> (tokenizer.decoded(
                fitted(
                    #[trigger] encodings[i],
                    target_len,
                    tokenizer.allowed_tokens,
                    tokenizer.vocab_size,
                ),
                true,
            ) matches Ok(text) && tokenizer.encoded(text, false) == Ok::<
                Seq<u32>,
                BenchErrorView,
            >(encodings[i + 1])),
{
    lemma_short_prompts_from(tokenizer, tokens, target_len, 0)
}

/// A prompt that is shorter than was wanted goes through all tries that are left.
proof fn lemma_short_prompts_from(
    tokenizer: TokenizerModel,
    tokens: Seq<u32>,
    target_len: nat,
    retry: nat,
) -> (encodings: Seq<Seq<u32>>)
    requires
        retry <= 20,
        prompt_after(tokenizer, tokens, target_len, retry) matches Ok((_, kept)) && kept.len()
            < target_len,
    ensures
        encodings.len() == 21 - retry,
        forall|i: int| 0 <= i < 20 - retry ==> (#[trigger] encodings[i]).len() != target_len,
        prompt_after(tokenizer, tokens, target_len, retry)->Ok_0.1 == encodings[20 - retry],
        tokenizer.decoded(tokens, true) matches Ok(text) && tokenizer.encoded(text, false) == Ok::<
            Seq<u32>,
            BenchErrorView,
        >(encodings[0]),
        forall|i: int|
            0 <= i < 20 - retry ==> (tokenizer.decoded(
                fitted(
                    #[trigger] encodings[i],
                    target_len,
                    tokenizer.allowed_tokens,
                    tokenizer.vocab_size,
                ),
                true,
            ) matches Ok(text) && tokenizer.encoded(text, false) == Ok::<
                Seq<u32>,
                BenchErrorView,
            >(encodings[i + 1])),
    decreases 20 - retry,
{
    let encoded = tokenizer.encoded(tokenizer.decoded(tokens, true)->Ok_0, false)->Ok_0;
    if retry == 20 {
        seq![encoded]
    } else {
        let next = fitted(encoded, target_len, tokenizer.allowed_tokens, tokenizer.vocab_size);
        let rest = lemma_short_prompts_from(tokenizer, next, target_len, retry + 1);
        let encodings = seq![encoded] + rest;
        assert forall|i: int| 0 <= i < 20 - retry implies (tokenizer.decoded(
            fitted(
                #[trigger] encodings[i],
                target_len,
                tokenizer.allowed_tokens,
                tokenizer.vocab_size,
            ),
            true,
        ) matches Ok(text) && tokenizer.encoded(text, false) == Ok::<Seq<u32>, BenchErrorView>(
            encodings[i + 1],
        )) by {
            if i > 0 {
                assert(encodings[i] == rest[i - 1]);
                assert(encodings[i + 1] == rest[i]);
            } else {
                assert(encodings[1] == rest[0]);
            }
        }
        assert forall|i: int| 0 <= i < 20 - retry implies (#[trigger] encodings[i]).len()
            != target_len by {
            if i > 0 {
                assert(encodings[i] == rest[i - 1]);
            }
        }
        assert(encodings[20 - retry] == rest[19 - retry]);
        encodings
    }
}

/// Where a prompt fails, it fails as the tokenizer did.
pub proof fn law_prompt_errors_are_the_tokenizers(
    tokenizer: TokenizerModel,
    tokens: Seq<u32>,
    target_len: nat,
    retry: nat,
)
    requires
        prompt_after(tokenizer, tokens, target_len, retry) is Err,
    ensures
        (exists|tried: Seq<u32>|
            (#[trigger] tokenizer.decoded(tried, true)) == Err::<Seq<char>, BenchErrorView>(
                prompt_after(tokenizer, tokens, target_len, retry)->Err_0,
            )) || (exists|text: Seq<char>|
            (#[trigger] tokenizer.encoded(text, false)) == Err::<Seq<u32>, BenchErrorView>(
                prompt_after(tokenizer, tokens, target_len, retry)->Err_0,
            )),
    decreases MAX_RETRY - retry,
{
    if let Ok(prompt) = tokenizer.decoded(tokens, true) {
        if let Ok(encoded) = tokenizer.encoded(prompt, false) {
            if retry < MAX_RETRY && encoded.len() != target_len {
                law_prompt_errors_are_the_tokenizers(
                    tokenizer,
                    fitted(encoded, target_len, tokenizer.allowed_tokens, tokenizer.vocab_size),
                    target_len,
                    retry + 1,
                );
            }
        }
    }
}

/// A failure to decode the tokens, or to encode what they decode to, is the failure of the
/// prompt.
pub proof fn law_failing_tokens_fail(
    tokenizer: TokenizerModel,
    tokens: Seq<u32>,
    target_len: nat,
    error: BenchErrorView,
)
    ensures
        tokenizer.decoded(tokens, true) == Err::<Seq<char>, BenchErrorView>(error) ==> prompt_of(
            tokenizer,
            tokens,
            target_len,
        ) == Err::<(Seq<char>, Seq<u32>), BenchErrorView>(error),
        tokenizer.decoded(tokens, true) matches Ok(text) ==> tokenizer.encoded(text, false)
            == Err::<Seq<u32>, BenchErrorView>(error) ==> prompt_of(tokenizer, tokens, target_len)
            == Err::<(Seq<char>, Seq<u32>), BenchErrorView>(error),
{
}

/// A try that fails, behind up to 20 tries of a wrong length, is the failure of the prompt: no
/// earlier try is taken in its place.
pub proof fn law_failing_tries_fail(
    tokenizer: TokenizerModel,
    target_len: nat,
    inputs: Seq<Seq<u32>>,
    prompts: Seq<Seq<char>>,
    encodings: Seq<Seq<u32>>,
    k: nat,
    error: BenchErrorView,
)
    requires
        k <= 20,
        inputs.len() == k + 1,
        prompts.len() == k,
        encodings.len() == k,
        tokenizer.vocab_size > 0 || tokenizer.allowed_tokens.len() > 0,
        forall|i: int|
            0 <= i < k ==> tokenizer.decoded(inputs[i], true) == Ok::<Seq<char>, BenchErrorView>(
                #[trigger] prompts[i],
            ) && tokenizer.encoded(prompts[i], false) == Ok::<Seq<u32>, BenchErrorView>(
                encodings[i],
            ),
        forall|i: int|
            0 <= i < k ==> (#[trigger] encodings[i]).len() != target_len && inputs[i + 1].len()
                == target_len,
        forall|i: int, j: int|
            0 <= i < k && 0 <= j < target_len ==> #[trigger] inputs[i + 1][j] == (if j
                < encodings[i].len() {
                encodings[i][j] as int
            } else if tokenizer.allowed_tokens.len() > 0 {
                tokenizer.allowed_tokens[(2 * j - encodings[i].len()) % (
                tokenizer.allowed_tokens.len() as int)] as int
            } else {
                (2 * j - encodings[i].len()) % (tokenizer.vocab_size as int)
            }),
        match tokenizer.decoded(inputs[k as int], true) {
            Err(failure) => failure == error,
            Ok(text) => tokenizer.encoded(text, false) == Err::<Seq<u32>, BenchErrorView>(error),
        },
    ensures
        prompt_of(tokenizer, inputs[0], target_len) == Err::<
            (Seq<char>, Seq<u32>),
            BenchErrorView,
        >(error),
{
    assert forall|i: int| 0 <= i < k implies (#[trigger] encodings[i]).len() != target_len
        && inputs[i + 1] == fitted(
        encodings[i],
        target_len,
        tokenizer.allowed_tokens,
        tokenizer.vocab_size,
    ) by {
        assert forall|j: int| 0 <= j < target_len implies #[trigger] inputs[i + 1][j] == (if j
            < encodings[i].len() {
            encodings[i][j] as int
        } else if tokenizer.allowed_tokens.len() > 0 {
            tokenizer.allowed_tokens[(2 * j - encodings[i].len()) % (
            tokenizer.allowed_tokens.len() as int)] as int
        } else {
            (2 * j - encodings[i].len()) % (tokenizer.vocab_size as int)
        }) by {}
        lemma_refit_is_fitted(
            encodings[i],
            target_len,
            tokenizer.allowed_tokens,
            tokenizer.vocab_size,
            inputs[i + 1],
        );
    }
    lemma_tries_lead_on(tokenizer, target_len, inputs, prompts, encodings, k);
}

} // verus!
