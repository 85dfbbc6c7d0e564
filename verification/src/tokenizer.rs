//! The tokenizer as the dataset code sees it.
use vstd::prelude::*;
use crate::error::{BenchError, BenchErrorView, result_view};

verus! {

/// A tokenizer: how to decode and encode, and what is known of its vocabulary.
///
/// `decode_fn` turns tokens into text (its flag says whether special tokens are left out) and
/// `encode_fn` turns text into tokens (its flag says whether special tokens are added). Both
/// may fail.
pub struct TokenizerKind<D, E> {
    pub decode_fn: D,
    pub encode_fn: E,
    /// The tokens that random prompts may be made of.
    pub allowed_tokens: Vec<u32>,
    pub vocab_size: u32,
    /// How many special tokens the server adds to each prompt.
    pub num_special_tokens: usize,
}

/// What a tokenizer does, as mathematical functions, and what is known of its vocabulary.
pub struct TokenizerModel {
    pub decode_fn: spec_fn(Seq<u32>, bool) -> Result<Seq<char>, BenchErrorView>,
    pub encode_fn: spec_fn(Seq<char>, bool) -> Result<Seq<u32>, BenchErrorView>,
    pub allowed_tokens: Seq<u32>,
    pub vocab_size: u32,
    pub num_special_tokens: usize,
}

impl TokenizerModel {
    /// The outcome of decoding `tokens`.
    pub open spec fn decoded(self, tokens: Seq<u32>, skip: bool) -> Result<
        Seq<char>,
        BenchErrorView,
    > {
        (self.decode_fn)(tokens, skip)
    }

    /// The outcome of encoding `text`.
    pub open spec fn encoded(self, text: Seq<char>, add: bool) -> Result<
        Seq<u32>,
        BenchErrorView,
    > {
        (self.encode_fn)(text, add)
    }

    /// Encodings have lengths that fit in a list.
    pub open spec fn countable(self) -> bool {
        forall|text: Seq<char>, add: bool|
            (#[trigger] self.encoded(text, add)) matches Ok(tokens) ==> tokens.len() <= usize::MAX
    }

    /// For up to `max_len` tokens, encoding gives back what was decoded.
    pub open spec fn lossless(self, max_len: nat) -> bool {
        forall|tokens: Seq<u32>|
            tokens.len() <= max_len ==> (#[trigger] self.decoded(tokens, true)) is Ok
                && self.encoded(self.decoded(tokens, true)->Ok_0, false) == Ok::<
                Seq<u32>,
                BenchErrorView,
            >(tokens)
    }

    /// For up to `max_len` tokens, encoding gives back what was decoded, and the text of tokens
    /// side by side is their texts side by side.
    pub open spec fn exact(self, max_len: nat) -> bool {
        &&& self.lossless(max_len)
        &&& forall|a: Seq<u32>, b: Seq<u32>|
            a.len() + b.len() <= max_len ==> (#[trigger] self.decoded(a + b, true))->Ok_0
                == self.decoded(a, true)->Ok_0 + self.decoded(b, true)->Ok_0
    }
}

impl<D, E> TokenizerKind<D, E> where
    D: Fn(&[u32], bool) -> Result<String, BenchError>,
    E: Fn(&str, bool) -> Result<Vec<u32>, BenchError>,
 {
    /// Both functions accept every argument.
    pub open spec fn callable(&self) -> bool {
        &&& forall|tokens: &[u32], skip: bool| call_requires(self.decode_fn, (tokens, skip))
        &&& forall|text: &str, add: bool| call_requires(self.encode_fn, (text, add))
    }

    /// `out` is a possible outcome of decoding `tokens`.
    pub open spec fn may_decode(
        &self,
        tokens: Seq<u32>,
        skip: bool,
        out: Result<Seq<char>, BenchErrorView>,
    ) -> bool {
        exists|slice: &[u32], result: Result<String, BenchError>|
            slice@ == tokens && #[trigger] call_ensures(self.decode_fn, (slice, skip), result)
                && result_view(result) == out
    }

    /// `out` is a possible outcome of encoding `text`.
    pub open spec fn may_encode(
        &self,
        text: Seq<char>,
        add: bool,
        out: Result<Seq<u32>, BenchErrorView>,
    ) -> bool {
        exists|slice: &str, result: Result<Vec<u32>, BenchError>|
            slice@ == text && #[trigger] call_ensures(self.encode_fn, (slice, add), result)
                && result_view(result) == out
    }

    /// The tokenizer does what `model` says: decoding and encoding have no other outcomes.
    pub open spec fn behaves_as(&self, model: TokenizerModel) -> bool {
        &&& forall|tokens: Seq<u32>, skip: bool, out| #[trigger]
            self.may_decode(tokens, skip, out) ==> out == model.decoded(tokens, skip)
        &&& forall|text: Seq<char>, add: bool, out| #[trigger]
            self.may_encode(text, add, out) ==> out == model.encoded(text, add)
        &&& model.allowed_tokens == self.allowed_tokens@
        &&& model.vocab_size == self.vocab_size
        &&& model.num_special_tokens == self.num_special_tokens
    }

    /// Decoding and encoding never fail.
    pub open spec fn infallible(&self) -> bool {
        &&& forall|tokens: Seq<u32>, skip: bool, out| #[trigger]
            self.may_decode(tokens, skip, out) ==> out is Ok
        &&& forall|text: Seq<char>, add: bool, out| #[trigger]
            self.may_encode(text, add, out) ==> out is Ok
    }

    /// A tokenizer with the given functions and vocabulary.
    pub fn new(
        decode_fn: D,
        encode_fn: E,
        allowed_tokens: Vec<u32>,
        vocab_size: u32,
        num_special_tokens: usize,
    ) -> (tokenizer: Self)
        ensures
            tokenizer == (TokenizerKind {
                decode_fn,
                encode_fn,
                allowed_tokens,
                vocab_size,
                num_special_tokens,
            }),
    {
        TokenizerKind { decode_fn, encode_fn, allowed_tokens, vocab_size, num_special_tokens }
    }

    /// The tokens that random prompts may be made of.
    pub fn get_allowed_tokens(&self) -> (tokens: &[u32])
        ensures
            tokens@ == self.allowed_tokens@,
    {
        self.allowed_tokens.as_slice()
    }

    /// The text of `tokens`.
    pub fn decode(&self, tokens: &[u32], skip_special_tokens: bool) -> (result: Result<
        String,
        BenchError,
    >)
        requires
            self.callable(),
        ensures
            self.may_decode(tokens@, skip_special_tokens, result_view(result)),
    {
        (self.decode_fn)(tokens, skip_special_tokens)
    }

    /// The tokens of `text`.
    pub fn encode(&self, text: &str, add_special_tokens: bool) -> (result: Result<
        Vec<u32>,
        BenchError,
    >)
        requires
            self.callable(),
        ensures
            self.may_encode(text@, add_special_tokens, result_view(result)),
    {
        (self.encode_fn)(text, add_special_tokens)
    }
}

/// Whatever the functions of a tokenizer can give is a possible outcome.
pub proof fn law_calls_are_possible_outcomes<D, E>(
    tokenizer: &TokenizerKind<D, E>,
    tokens: &[u32],
    text: &str,
    flag: bool,
    decoded: Result<String, BenchError>,
    encoded: Result<Vec<u32>, BenchError>,
) where
    D: Fn(&[u32], bool) -> Result<String, BenchError>,
    E: Fn(&str, bool) -> Result<Vec<u32>, BenchError>,

    ensures
        call_ensures(tokenizer.decode_fn, (tokens, flag), decoded) ==> tokenizer.may_decode(
            tokens@,
            flag,
            result_view(decoded),
        ),
        call_ensures(tokenizer.encode_fn, (text, flag), encoded) ==> tokenizer.may_encode(
            text@,
            flag,
            result_view(encoded),
        ),
{
}

/// A tokenizer behaves as any model with its vocabulary whose functions cover all outcomes.
pub proof fn law_covering_models_fit<D, E>(
    tokenizer: &TokenizerKind<D, E>,
    model: TokenizerModel,
) where
    D: Fn(&[u32], bool) -> Result<String, BenchError>,
    E: Fn(&str, bool) -> Result<Vec<u32>, BenchError>,

    requires
        forall|tokens: Seq<u32>, skip: bool, out| #[trigger]
            tokenizer.may_decode(tokens, skip, out) ==> out == (model.decode_fn)(tokens, skip),
        forall|text: Seq<char>, add: bool, out| #[trigger]
            tokenizer.may_encode(text, add, out) ==> out == (model.encode_fn)(text, add),
        model.allowed_tokens == tokenizer.allowed_tokens@,
        model.vocab_size == tokenizer.vocab_size,
        model.num_special_tokens == tokenizer.num_special_tokens,
    ensures
        tokenizer.behaves_as(model),
{
}

/// A tokenizer whose possible outcomes are all successes is infallible.
pub proof fn law_successes_make_infallible<D, E>(tokenizer: &TokenizerKind<D, E>) where
    D: Fn(&[u32], bool) -> Result<String, BenchError>,
    E: Fn(&str, bool) -> Result<Vec<u32>, BenchError>,

    requires
        forall|tokens: Seq<u32>, skip: bool, out| #[trigger]
            tokenizer.may_decode(tokens, skip, out) ==> out is Ok,
        forall|text: Seq<char>, add: bool, out| #[trigger]
            tokenizer.may_encode(text, add, out) ==> out is Ok,
    ensures
        tokenizer.infallible(),
{
}

} // verus!
