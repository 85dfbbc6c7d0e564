//! Prompts of a wanted length.
use vllm_bench::datasets::prompt::{
    fit_tokens, gen_prompt_to_target_len, make_token_seq, MAX_RETRY,
};
use vllm_bench::error::BenchError;
use vllm_bench::tokenizer::TokenizerKind;

/// Writes one letter per token.
fn letters(tokens: &[u32]) -> String {
    tokens.iter().map(|t| char::from_u32('a' as u32 + t).unwrap()).collect()
}

/// Reads one token per letter.
fn numbers(text: &str) -> Vec<u32> {
    text.chars().map(|c| c as u32 - 'a' as u32).collect()
}

#[test]
fn token_sequences_go_round() {
    assert_eq!(make_token_seq(&[5, 6, 7], 2, 5), vec![7, 5, 6, 7, 5]);
    assert_eq!(make_token_seq(&[5, 6, 7], 5, 5), make_token_seq(&[5, 6, 7], 2, 5));
    assert_eq!(make_token_seq(&[], 2, 0), Vec::<u32>::new());
}

#[test]
fn filling_counts_positions_twice() {
    let mut tokens: Vec<u32> = vec![1];
    fit_tokens(&mut tokens, 5, &[10, 11, 12], 0);
    // Places 1, 3, 5 and 7 of the circle.
    assert_eq!(tokens, vec![1, 11, 10, 12, 11]);
    let mut tokens: Vec<u32> = vec![9, 9];
    fit_tokens(&mut tokens, 4, &[], 3);
    assert_eq!(tokens, vec![9, 9, 2, 1]);
}

#[test]
fn fitting_cuts_and_keeps() {
    let mut tokens: Vec<u32> = vec![1, 2, 3];
    fit_tokens(&mut tokens, 2, &[], 0);
    assert_eq!(tokens, vec![1, 2]);
    fit_tokens(&mut tokens, 2, &[], 0);
    assert_eq!(tokens, vec![1, 2]);
}

#[test]
fn stable_tokens_are_kept() {
    let tok = TokenizerKind::new(
        |tokens: &[u32], _skip: bool| Ok(letters(tokens)),
        |text: &str, _add: bool| Ok(numbers(text)),
        vec![0, 1, 2],
        26,
        0,
    );
    let (text, tokens) = gen_prompt_to_target_len(&tok, &[2, 0, 1], 3).unwrap();
    assert_eq!(text, "cab");
    assert_eq!(tokens, vec![2, 0, 1]);
}

#[test]
fn short_and_long_prompts_are_refitted() {
    let tok = TokenizerKind::new(
        |tokens: &[u32], _skip: bool| Ok(letters(tokens)),
        |text: &str, _add: bool| Ok(numbers(text)),
        vec![0, 1, 2],
        26,
        0,
    );
    let (text, tokens) = gen_prompt_to_target_len(&tok, &[2], 3).unwrap();
    assert_eq!(text, "cba");
    assert_eq!(tokens, vec![2, 1, 0]);
    let (text, tokens) = gen_prompt_to_target_len(&tok, &[2, 2, 2, 1], 2).unwrap();
    assert_eq!(text, "cc");
    assert_eq!(tokens, vec![2, 2]);
    assert_eq!(gen_prompt_to_target_len(&tok, &[1], 0).unwrap(), (String::new(), Vec::new()));
}

#[test]
fn without_allowed_tokens_numbers_fill() {
    let tok = TokenizerKind::new(
        |tokens: &[u32], _skip: bool| Ok(letters(tokens)),
        |text: &str, _add: bool| Ok(numbers(text)),
        Vec::new(),
        4,
        0,
    );
    let (text, _) = gen_prompt_to_target_len(&tok, &[0], 4).unwrap();
    assert_eq!(text, "abdb");
}

#[test]
fn growing_prompts_are_cut_after_the_last_retry() {
    // Encoding always adds a token, so that no try gives the wanted length.
    let tok = TokenizerKind::new(
        |tokens: &[u32], _skip: bool| Ok(letters(tokens)),
        |text: &str, _add: bool| {
            let mut tokens = numbers(text);
            tokens.push(3);
            Ok(tokens)
        },
        vec![0, 1, 2],
        26,
        0,
    );
    let (text, tokens) = gen_prompt_to_target_len(&tok, &[2, 0], 2).unwrap();
    assert_eq!(tokens, vec![2, 0]);
    assert_eq!(text, "ca");
}

#[test]
fn shrinking_prompts_are_accepted_after_the_last_retry() {
    // Encoding always drops a token; each try but the last fills it up again.
    let tok = TokenizerKind::new(
        |tokens: &[u32], _skip: bool| Ok(letters(tokens)),
        |text: &str, _add: bool| {
            let mut tokens = numbers(text);
            tokens.pop();
            Ok(tokens)
        },
        vec![0, 1, 2],
        26,
        0,
    );
    let (text, tokens) = gen_prompt_to_target_len(&tok, &[1, 1, 1], 3).unwrap();
    assert_eq!(tokens, vec![1, 1]);
    assert_eq!(text, "bb");
}

#[test]
fn every_retry_decodes_and_encodes() {
    let decodes = std::cell::Cell::new(0usize);
    let encodes = std::cell::Cell::new(0usize);
    let tok = TokenizerKind::new(
        |tokens: &[u32], skip: bool| {
            assert!(skip);
            decodes.set(decodes.get() + 1);
            Ok(letters(tokens))
        },
        |text: &str, add: bool| {
            assert!(!add);
            encodes.set(encodes.get() + 1);
            let mut tokens = numbers(text);
            tokens.pop();
            Ok(tokens)
        },
        vec![0],
        26,
        0,
    );
    gen_prompt_to_target_len(&tok, &[0, 0], 2).unwrap();
    assert_eq!(encodes.get(), MAX_RETRY + 1);
    assert_eq!(decodes.get(), MAX_RETRY + 2);
}

#[test]
fn failures_to_decode_or_encode_come_out() {
    let tok = TokenizerKind::new(
        |_tokens: &[u32], _skip: bool| Err(BenchError::Tokenizer("no decoder".to_string())),
        |text: &str, _add: bool| Ok(numbers(text)),
        vec![0],
        26,
        0,
    );
    let error = gen_prompt_to_target_len(&tok, &[0], 1).unwrap_err();
    assert!(matches!(error, BenchError::Tokenizer(text) if text == "no decoder"));
    let tok = TokenizerKind::new(
        |tokens: &[u32], _skip: bool| Ok(letters(tokens)),
        |_text: &str, _add: bool| Err(BenchError::Config("no encoder".to_string())),
        vec![0],
        26,
        0,
    );
    let error = gen_prompt_to_target_len(&tok, &[0], 1).unwrap_err();
    assert!(matches!(error, BenchError::Config(text) if text == "no encoder"));
}
