//! Random multi-turn conversations.
use std::collections::HashSet;
use rand::rngs::StdRng;
use rand::{Rng, SeedableRng};
use vllm_bench::datasets::config::{
    check_input_lens, check_setup, MultiTurnRandomConfig, PrefixSharingConfig, TurnRange,
    FRACTION_ONE,
};
use vllm_bench::datasets::draws::LengthBounds;
use vllm_bench::datasets::multi_turn::{generate_multi_turn_random, is_generable};
use vllm_bench::datasets::parts::{generate_shared_prefix_text, make_suffix};
use vllm_bench::datasets::prefix_sharing::{
    draw_prefixes, generate_prefix_sharing_conversations, is_shareable, plan_prefix_sharing,
    prefix_conversation, prefix_turn,
};
use vllm_bench::datasets::random_turns::{
    plan_random, random_conversation, random_conversations, random_turn,
};
use vllm_bench::datasets::{conversation_id, MultiTurnConversation};
use vllm_bench::error::BenchError;
use vllm_bench::tokenizer::TokenizerKind;

/// A tokenizer that writes each token as five digits and reads them back.
fn digits_tokenizer(
    vocab_size: u32,
    num_special_tokens: usize,
) -> TokenizerKind<
    impl Fn(&[u32], bool) -> Result<String, BenchError>,
    impl Fn(&str, bool) -> Result<Vec<u32>, BenchError>,
> {
    TokenizerKind::new(
        |tokens: &[u32], _skip: bool| Ok(digits(tokens)),
        |text: &str, _add: bool| {
            Ok(text
                .as_bytes()
                .chunks(5)
                .map(|chunk| std::str::from_utf8(chunk).unwrap().parse::<u32>().unwrap())
                .collect::<Vec<u32>>())
        },
        (0..vocab_size).collect(),
        vocab_size,
        num_special_tokens,
    )
}

/// A tokenizer whose encoder fails on texts that hold `word`.
fn failing_tokenizer(
    word: &'static str,
) -> TokenizerKind<
    impl Fn(&[u32], bool) -> Result<String, BenchError>,
    impl Fn(&str, bool) -> Result<Vec<u32>, BenchError>,
> {
    TokenizerKind::new(
        |tokens: &[u32], _skip: bool| Ok(digits(tokens)),
        move |text: &str, _add: bool| {
            if text.contains(word) {
                Err(BenchError::Tokenizer(format!("cannot encode {word}")))
            } else {
                Ok(vec![0; text.len() / 5])
            }
        },
        (0..1000).collect(),
        1000,
        0,
    )
}

fn digits(tokens: &[u32]) -> String {
    tokens.iter().map(|t| format!("{t:05}")).collect()
}

fn message(error: BenchError) -> String {
    match error {
        BenchError::Config(text) => text,
        BenchError::Tokenizer(text) => text,
    }
}

fn config(
    num_conversations: usize,
    min_turns: usize,
    max_turns: usize,
    input_len: usize,
    per_turn_input_len: usize,
    output_len: usize,
    seed: u64,
) -> MultiTurnRandomConfig {
    MultiTurnRandomConfig {
        num_conversations,
        min_turns,
        max_turns,
        prefix_len: 0,
        input_len,
        per_turn_input_len,
        output_len,
        seed,
        request_id_prefix: "test-".to_string(),
        prefix_sharing_config: None,
        turn_range: None,
        cache_hit_fraction: 0,
        cache_ratio: 0,
        cache_base_len: 0,
        cached_lens: Vec::new(),
    }
}

/// Switches the prefix cache on, for turns 0 of at most `longest` tokens.
fn with_cache(cfg: &mut MultiTurnRandomConfig, hit_fraction: f64, ratio: f64, longest: usize) {
    cfg.cache_hit_fraction = (hit_fraction * FRACTION_ONE as f64).ceil() as u64;
    cfg.cache_ratio = (ratio * FRACTION_ONE as f64).ceil() as u64;
    cfg.cache_base_len = (longest as f64 * ratio).ceil() as usize;
    cfg.cached_lens = (0..=longest).map(|n| (n as f64 * ratio).round() as usize).collect();
}

/// The prefix lengths that ratios of `input_len` come to.
fn sharing(input_len: usize, global_ratio: f64, conversation_ratio: f64) -> PrefixSharingConfig {
    PrefixSharingConfig {
        global_len: (input_len as f64 * global_ratio).floor() as usize,
        conversation_len: (input_len as f64 * conversation_ratio).floor() as usize,
    }
}

fn common_prefix_bytes(strings: &[&str]) -> usize {
    if strings.is_empty() {
        return 0;
    }
    let first = strings[0].as_bytes();
    let mut len = first.len();
    for s in &strings[1..] {
        let b = s.as_bytes();
        len = len.min(b.len());
        for i in 0..len {
            if first[i] != b[i] {
                len = i;
                break;
            }
        }
    }
    len
}

fn messages(conversations: &[MultiTurnConversation]) -> Vec<Vec<&str>> {
    conversations
        .iter()
        .map(|c| c.turns.iter().map(|t| &*t.user_message).collect())
        .collect()
}

#[test]
fn test_prefix_sharing_structure() {
    let tok = digits_tokenizer(99_999, 0);
    let mut cfg = config(5, 3, 3, 1000, 0, 100, 42);
    cfg.prefix_sharing_config = Some(sharing(1000, 0.1, 0.8));

    let conversations = generate_multi_turn_random(&tok, &cfg).unwrap();
    assert_eq!(conversations.len(), 5);
    let messages = messages(&conversations);

    // 1. Global prefix: all messages share a common prefix
    let all_msgs: Vec<&str> = messages.iter().flat_map(|v| v.iter().copied()).collect();
    let global_prefix = common_prefix_bytes(&all_msgs);
    assert!(global_prefix > 0, "Global prefix must be non-empty");

    // 2. Conversation prefix: turns within same conversation share more
    for conv_msgs in messages.iter() {
        let conv_prefix = common_prefix_bytes(conv_msgs);
        assert!(
            conv_prefix > global_prefix,
            "Conv prefix ({conv_prefix}) must exceed global prefix ({global_prefix})"
        );
    }

    // 3. Different conversations diverge after global prefix
    let cross = common_prefix_bytes(&[messages[0][0], messages[1][0]]);
    let within = common_prefix_bytes(&messages[0]);
    assert!(cross < within, "Cross-conv ({cross}) must be < within-conv ({within})");

    // 4. Turns within same conversation are not identical (unique suffix)
    for (i, conv_msgs) in messages.iter().enumerate() {
        for a in 0..conv_msgs.len() {
            for b in (a + 1)..conv_msgs.len() {
                assert_ne!(conv_msgs[a], conv_msgs[b], "Conv {i} turn {a} and {b} must differ");
            }
        }
    }

    // 5. Token lengths approximately match target
    for conv in conversations.iter() {
        for turn in conv.turns.iter() {
            let diff = (turn.user_message_len as i64 - 1000).abs();
            assert!(diff <= 10, "Token len {} too far from 1000", turn.user_message_len);
        }
    }
}

#[test]
fn test_per_turn_input_len_default_mode() {
    let tok = digits_tokenizer(99_999, 0);
    let cfg = config(4, 3, 3, 512, 128, 64, 1);

    let conversations = generate_multi_turn_random(&tok, &cfg).unwrap();
    assert_eq!(conversations.len(), 4);
    for (i, conv) in conversations.iter().enumerate() {
        assert_eq!(conv.turns.len(), 3);
        for (j, turn) in conv.turns.iter().enumerate() {
            let expected = if j == 0 { 512usize } else { 128usize };
            let diff = (turn.user_message_len as i64 - expected as i64).abs();
            assert!(
                diff <= 5,
                "Conv {i} turn {j}: token len {} too far from {expected}",
                turn.user_message_len
            );
        }
    }
}

#[test]
fn test_variable_turns_range() {
    let tok = digits_tokenizer(99_999, 0);
    let cfg = config(50, 2, 5, 256, 0, 32, 7);

    let conversations = generate_multi_turn_random(&tok, &cfg).unwrap();
    assert_eq!(conversations.len(), 50);
    let mut distinct_counts = HashSet::new();
    for conv in &conversations {
        let n = conv.turns.len();
        assert!((2..=5).contains(&n), "turn count {n} out of [2,5]");
        distinct_counts.insert(n);
    }
    assert!(
        distinct_counts.len() >= 2,
        "expected at least 2 distinct turn counts, got {distinct_counts:?}"
    );
}

#[test]
fn test_variable_turns_fixed() {
    let tok = digits_tokenizer(99_999, 0);
    let cfg = config(10, 4, 4, 256, 0, 32, 42);

    let conversations = generate_multi_turn_random(&tok, &cfg).unwrap();
    for conv in &conversations {
        assert_eq!(conv.turns.len(), 4, "expected exactly 4 turns");
    }
}

#[test]
fn test_per_turn_input_len_prefix_sharing() {
    let tok = digits_tokenizer(99_999, 0);
    // global=0.05 (50), conv=0.5 (500), unique_t0=450, unique_t1=600-550=50
    let mut cfg = config(4, 3, 3, 1000, 600, 64, 3);
    cfg.prefix_sharing_config = Some(sharing(1000, 0.05, 0.50));

    let conversations = generate_multi_turn_random(&tok, &cfg).unwrap();
    assert_eq!(conversations.len(), 4);
    let messages = messages(&conversations);

    // Global prefix bytes shared across all turns of all conversations
    let all_msgs: Vec<&str> = messages.iter().flat_map(|v| v.iter().copied()).collect();
    let global_prefix = common_prefix_bytes(&all_msgs);
    assert!(global_prefix > 0, "Global prefix must be non-empty");

    // Within each conversation, prefix grows (conv prefix longer than global)
    for (i, conv_msgs) in messages.iter().enumerate() {
        let conv_prefix = common_prefix_bytes(conv_msgs);
        assert!(
            conv_prefix > global_prefix,
            "Conv {i}: conv_prefix ({conv_prefix}) must exceed global ({global_prefix})"
        );
    }

    // Turn 0 length ~ 1000, turns 1+ ~ 600
    for (i, conv) in conversations.iter().enumerate() {
        for (j, turn) in conv.turns.iter().enumerate() {
            let expected = if j == 0 { 1000usize } else { 600usize };
            let diff = (turn.user_message_len as i64 - expected as i64).abs();
            assert!(
                diff <= 10,
                "Conv {i} turn {j}: token len {} too far from {expected}",
                turn.user_message_len
            );
        }
    }
}

#[test]
fn test_bimodal_prefix_cache_multi_turn() {
    let tok = digits_tokenizer(99_999, 0);
    // 80% warm, 95% cached. Many conversations so the warm fraction is observable.
    let mut cfg = config(200, 2, 2, 1000, 200, 64, 7);
    with_cache(&mut cfg, 0.8, 0.95, 1000);

    let conversations = generate_multi_turn_random(&tok, &cfg).unwrap();
    assert_eq!(conversations.len(), 200);
    let turn0: Vec<&str> = conversations.iter().map(|c| &*c.turns[0].user_message).collect();

    let mut warm_count = 0usize;
    for (i, &a) in turn0.iter().enumerate() {
        // count how many OTHER turn-0 messages share a big prefix with this one
        let shared_big = turn0
            .iter()
            .enumerate()
            .filter(|(j, &b)| *j != i && common_prefix_bytes(&[a, b]) > 100)
            .count();
        if shared_big > 0 {
            warm_count += 1;
        }
    }
    let warm_frac = warm_count as f64 / turn0.len() as f64;
    assert!(
        (0.65..=0.95).contains(&warm_frac),
        "warm fraction {warm_frac} not near cache_hit_fraction 0.8"
    );

    // All warm conversations must share a common leading run.
    let warm_msgs: Vec<&str> = turn0
        .iter()
        .copied()
        .filter(|&a| {
            turn0.iter().any(|&b| !std::ptr::eq(a, b) && common_prefix_bytes(&[a, b]) > 100)
        })
        .collect();
    let warm_common = common_prefix_bytes(&warm_msgs);
    assert!(
        warm_common > 100,
        "warm conversations must share a large cached prefix, got {warm_common} bytes"
    );

    // Turn 0 length ~ 1000 for every conversation (warm cached + suffix = 1000).
    for conv in &conversations {
        let diff = (conv.turns[0].user_message_len as i64 - 1000).abs();
        assert!(diff <= 15, "turn-0 len {} far from 1000", conv.turns[0].user_message_len);
    }
}

#[test]
fn test_range_ratio_varies_lengths_multi_turn() {
    let tok = digits_tokenizer(99_999, 0);
    let mut cfg = config(40, 2, 2, 1000, 0, 64, 11);
    let bounds = LengthBounds { low: 500, high: 1500 };
    cfg.turn_range = Some(TurnRange { first: bounds, later: bounds });

    let conversations = generate_multi_turn_random(&tok, &cfg).unwrap();
    let turn0_lens: Vec<usize> =
        conversations.iter().map(|c| c.turns[0].user_message_len).collect();
    let min = *turn0_lens.iter().min().unwrap();
    let max = *turn0_lens.iter().max().unwrap();
    // Expect a spread within [~500, ~1500] and clearly non-constant.
    assert!(max - min > 100, "range_ratio 0.5 should vary lengths, spread was {}", max - min);
    assert!(min >= 400 && max <= 1600, "lengths {min}..{max} out of expected band");
}

#[test]
fn conversation_ids_count_up() {
    assert_eq!(conversation_id("test-", 12), "test-conv-12");
    assert_eq!(conversation_id("", 0), "conv-0");
    let tok = digits_tokenizer(1000, 0);
    let conversations = generate_multi_turn_random(&tok, &config(12, 1, 1, 3, 0, 9, 5)).unwrap();
    let ids: Vec<&str> = conversations.iter().map(|c| c.conversation_id.as_str()).collect();
    assert_eq!(ids[0], "test-conv-0");
    assert_eq!(ids[11], "test-conv-11");
    assert_eq!(ids.iter().collect::<HashSet<_>>().len(), 12);
    assert!(conversations.iter().all(|c| c.turns[0].expected_output_len == 9));
}

#[test]
fn turns_start_where_the_generator_says() {
    let tok = digits_tokenizer(1000, 0);
    let conversations = generate_multi_turn_random(&tok, &config(6, 2, 4, 7, 3, 9, 77)).unwrap();
    let mut rng = StdRng::seed_from_u64(77);
    let counts: Vec<usize> = (0..6).map(|_| rng.gen_range(2..=4)).collect();
    for (c, &count) in counts.iter().enumerate() {
        assert_eq!(conversations[c].turns.len(), count);
        let offsets: Vec<usize> = (0..count).map(|_| rng.gen_range(0..1000)).collect();
        for (t, &offset) in offsets.iter().enumerate() {
            let len = if t == 0 { 7 } else { 3 };
            let tokens: Vec<u32> =
                (0..len).map(|i| ((offset + c * 4 + t + i) % 1000) as u32).collect();
            assert_eq!(&*conversations[c].turns[t].user_message, digits(&tokens));
            assert_eq!(conversations[c].turns[t].user_message_len, len);
        }
    }
}

#[test]
fn shared_prefix_goes_before_turn_zero_only() {
    let tok = digits_tokenizer(1000, 0);
    let plain = generate_multi_turn_random(&tok, &config(3, 2, 2, 5, 0, 1, 8)).unwrap();
    let mut cfg = config(3, 2, 2, 5, 0, 1, 8);
    cfg.prefix_len = 4;
    let prefixed = generate_multi_turn_random(&tok, &cfg).unwrap();
    let mut rng = StdRng::seed_from_u64(8u64.wrapping_add(0xDEAD));
    let tokens: Vec<u32> = (0..4).map(|_| rng.gen_range(0..1000usize) as u32).collect();
    for (with, without) in prefixed.iter().zip(&plain) {
        let expected = format!("{}{}", digits(&tokens), without.turns[0].user_message);
        assert_eq!(&*with.turns[0].user_message, expected);
        assert_eq!(with.turns[0].user_message_len, 9);
        assert_eq!(with.turns[1].user_message, without.turns[1].user_message);
        assert_eq!(with.turns[1].user_message_len, 5);
    }
}

#[test]
fn shared_prefix_of_length_zero_is_empty() {
    let tok = digits_tokenizer(1000, 0);
    assert_eq!(&*generate_shared_prefix_text(&tok, 0, 3).unwrap(), "");
    let text = generate_shared_prefix_text(&tok, 6, 3).unwrap();
    assert_eq!(text.len(), 30);
    assert_eq!(text, generate_shared_prefix_text(&tok, 6, 3).unwrap());
    assert_ne!(text, generate_shared_prefix_text(&tok, 6, 4).unwrap());
}

#[test]
fn shared_prefix_of_length_zero_needs_no_tokens() {
    let tok = digits_tokenizer(0, 0);
    assert_eq!(&*generate_shared_prefix_text(&tok, 0, 42).unwrap(), "");
}

#[test]
fn shorter_shared_prefixes_are_starts_of_longer_ones() {
    let tok = digits_tokenizer(1000, 0);
    for seed in [0u64, 7, u64::MAX] {
        let longer = generate_shared_prefix_text(&tok, 20, seed).unwrap();
        assert_eq!(longer.len(), 100);
        for n in 0..20 {
            let shorter = generate_shared_prefix_text(&tok, n, seed).unwrap();
            assert_eq!(&*shorter, &longer[..5 * n]);
        }
    }
}

#[test]
fn one_allowed_token_makes_one_shared_prefix() {
    let mut tok = digits_tokenizer(1000, 0);
    tok.allowed_tokens = vec![77];
    for seed in [0u64, 1, 2, u64::MAX] {
        assert_eq!(&*generate_shared_prefix_text(&tok, 3, seed).unwrap(), digits(&[77, 77, 77]));
    }
}

#[test]
fn configurations_can_be_copied_and_shown() {
    let tok = digits_tokenizer(1000, 0);
    let cfg = config(2, 1, 3, 8, 0, 1, 123);
    let copy = cfg.clone();
    assert_eq!(format!("{cfg:?}"), format!("{copy:?}"));
    let one = generate_multi_turn_random(&tok, &cfg).unwrap();
    let two = generate_multi_turn_random(&tok, &copy).unwrap();
    assert_eq!(messages(&one), messages(&two));
}

#[test]
fn warm_conversations_begin_with_the_base_prefix() {
    let tok = digits_tokenizer(1000, 0);
    let mut cfg = config(20, 2, 2, 10, 4, 1, 21);
    cfg.prefix_len = 50;
    with_cache(&mut cfg, 0.5, 0.65, 10);
    let conversations = generate_multi_turn_random(&tok, &cfg).unwrap();

    let mut base_rng = StdRng::seed_from_u64(21u64.wrapping_add(0xCACE));
    let base: Vec<u32> = (0..7).map(|_| base_rng.gen_range(0..1000usize) as u32).collect();
    let mut warm_rng = StdRng::seed_from_u64(21u64.wrapping_add(0xF00D));
    let mut rng = StdRng::seed_from_u64(21);
    for (c, conversation) in conversations.iter().enumerate() {
        let warm = warm_rng.gen::<f64>() < 0.5;
        let first: usize = rng.gen_range(0..1000);
        let second: usize = rng.gen_range(0..1000);
        // 0.65 of 10 tokens is 6.5, which is rounded to 7 cached tokens.
        let cached: usize = if warm { 7 } else { 0 };
        let mut tokens: Vec<u32> = base[..cached].to_vec();
        tokens.extend((0..10 - cached).map(|i| ((first + c * 2 + i) % 1000) as u32));
        assert_eq!(&*conversation.turns[0].user_message, digits(&tokens));
        assert_eq!(conversation.turns[0].user_message_len, 10);
        let later: Vec<u32> = (0..4).map(|i| ((second + c * 2 + 1 + i) % 1000) as u32).collect();
        assert_eq!(&*conversation.turns[1].user_message, digits(&later));
    }
}

#[test]
fn cached_part_never_exceeds_turn_or_base() {
    let tok = digits_tokenizer(1000, 0);
    let mut cfg = config(2, 1, 1, 6, 0, 1, 5);
    with_cache(&mut cfg, 1.0, 1.0, 6);
    // The whole of turn 0 is cached: all conversations are alike.
    let conversations = generate_multi_turn_random(&tok, &cfg).unwrap();
    assert_eq!(conversations[0].turns[0].user_message, conversations[1].turns[0].user_message);
    assert_eq!(conversations[0].turns[0].user_message_len, 6);
    // A table that asks for more than there is does not get it.
    cfg.cached_lens = vec![100; 7];
    cfg.cache_base_len = 2;
    let conversations = generate_multi_turn_random(&tok, &cfg).unwrap();
    let first = &*conversations[0].turns[0].user_message;
    let second = &*conversations[1].turns[0].user_message;
    assert_eq!(&first[..10], &second[..10]);
    assert_ne!(first, second);
    assert_eq!(conversations[0].turns[0].user_message_len, 6);
}

#[test]
fn extreme_fractions_make_all_or_none_warm() {
    let tok = digits_tokenizer(1000, 0);
    let mut cfg = config(30, 1, 1, 6, 0, 1, 5);
    with_cache(&mut cfg, 1.0, 0.5, 6);
    assert_eq!(plan_random(&tok, &cfg).unwrap().warm, Some(vec![true; 30]));
    cfg.cache_hit_fraction = 1;
    assert_eq!(plan_random(&tok, &cfg).unwrap().warm, Some(vec![false; 30]));
    cfg.cache_hit_fraction = 0;
    assert_eq!(plan_random(&tok, &cfg).unwrap().warm, None);
}

#[test]
fn modes_do_not_disturb_each_other() {
    let tok = digits_tokenizer(1000, 0);
    let plain = plan_random(&tok, &config(9, 1, 4, 10, 0, 1, 33)).unwrap();
    let mut cached = config(9, 1, 4, 10, 0, 1, 33);
    with_cache(&mut cached, 0.5, 0.5, 12);
    let mut both = config(9, 1, 4, 10, 0, 1, 33);
    let bounds = LengthBounds { low: 8, high: 12 };
    with_cache(&mut both, 0.5, 0.5, 12);
    both.turn_range = Some(TurnRange { first: bounds, later: bounds });
    let cached = plan_random(&tok, &cached).unwrap();
    let both = plan_random(&tok, &both).unwrap();
    assert_eq!(plain.offsets, cached.offsets);
    assert_eq!(plain.offsets, both.offsets);
    assert_eq!(cached.warm, both.warm);
}

#[test]
fn turn_counts_do_not_depend_on_the_vocabulary() {
    let cfg = config(30, 1, 9, 10, 0, 1, 33);
    let counts = |vocab_size: u32| -> Vec<usize> {
        let plan = plan_random(&digits_tokenizer(vocab_size, 0), &cfg).unwrap();
        plan.offsets.iter().map(|row| row.len()).collect()
    };
    assert_eq!(counts(1000), counts(7));
}

#[test]
fn turns_start_apart_even_from_one_offset() {
    // With one number to draw from, all offsets are 0.
    let mut tok = digits_tokenizer(1000, 0);
    tok.vocab_size = 1;
    let conversations = generate_multi_turn_random(&tok, &config(9, 1, 6, 3, 0, 1, 2)).unwrap();
    let mut seen: HashSet<String> = HashSet::new();
    for (c, conversation) in conversations.iter().enumerate() {
        for (t, turn) in conversation.turns.iter().enumerate() {
            let start = (c * 6 + t) as u32;
            assert_eq!(&*turn.user_message, digits(&[start, start + 1, start + 2]));
            assert!(seen.insert(turn.user_message.to_string()));
        }
    }
}

#[test]
fn prefixes_do_not_depend_on_later_turns() {
    let tok = digits_tokenizer(1000, 0);
    let shared = PrefixSharingConfig { global_len: 2, conversation_len: 3 };
    let one = plan_prefix_sharing(&tok, &config(4, 1, 3, 10, 0, 2, 55), shared).unwrap();
    let two = plan_prefix_sharing(&tok, &config(4, 1, 3, 10, 77, 2, 55), shared).unwrap();
    assert_eq!(one.global_text, two.global_text);
    assert_eq!(one.conv_texts, two.conv_texts);
    assert_eq!(one.unique_offsets, two.unique_offsets);
    assert_eq!((one.unique_len, one.later_unique_len), (5, 5));
    assert_eq!((two.unique_len, two.later_unique_len), (5, 72));
}

#[test]
fn cache_replaces_the_shared_prefix() {
    let tok = digits_tokenizer(1000, 0);
    let mut cfg = config(3, 1, 1, 10, 0, 1, 33);
    with_cache(&mut cfg, 0.5, 0.5, 10);
    let without = generate_multi_turn_random(&tok, &cfg).unwrap();
    cfg.prefix_len = 17;
    let with = generate_multi_turn_random(&tok, &cfg).unwrap();
    assert_eq!(messages(&without), messages(&with));
}

#[test]
fn drawn_lengths_come_from_their_own_generator() {
    let tok = digits_tokenizer(1000, 0);
    let mut cfg = config(8, 3, 3, 10, 5, 1, 4);
    cfg.turn_range = Some(TurnRange {
        first: LengthBounds { low: 5, high: 15 },
        later: LengthBounds { low: 2, high: 7 },
    });
    let conversations = generate_multi_turn_random(&tok, &cfg).unwrap();
    let mut rng = StdRng::seed_from_u64(4u64.wrapping_add(0xBEEF));
    for conversation in &conversations {
        for (t, turn) in conversation.turns.iter().enumerate() {
            let len: usize =
                if t == 0 { rng.gen_range(5..=15) } else { rng.gen_range(2..=7) };
            assert_eq!(turn.user_message_len, len);
        }
    }
    // Without a choice nothing is drawn, even where the bounds cross.
    cfg.turn_range = Some(TurnRange {
        first: LengthBounds { low: 6, high: 6 },
        later: LengthBounds { low: 4, high: 3 },
    });
    let conversations = generate_multi_turn_random(&tok, &cfg).unwrap();
    for conversation in &conversations {
        let lens: Vec<usize> = conversation.turns.iter().map(|t| t.user_message_len).collect();
        assert_eq!(lens, vec![6, 4, 4]);
    }
}

#[test]
fn same_seed_gives_same_conversations() {
    let tok = digits_tokenizer(1000, 0);
    let a = generate_multi_turn_random(&tok, &config(5, 1, 3, 8, 0, 1, 123)).unwrap();
    let b = generate_multi_turn_random(&tok, &config(5, 1, 3, 8, 0, 1, 123)).unwrap();
    let c = generate_multi_turn_random(&tok, &config(5, 1, 3, 8, 0, 1, 124)).unwrap();
    assert_eq!(messages(&a), messages(&b));
    assert_ne!(messages(&a), messages(&c));
}

#[test]
fn fewer_generated_conversations_are_the_first() {
    let tok = digits_tokenizer(1000, 0);
    let bounds = LengthBounds { low: 4, high: 12 };
    let make = |n: usize, shared: bool| -> Vec<MultiTurnConversation> {
        let mut cfg = config(n, 3, 3, 9, 5, 1, 61);
        if shared {
            cfg.prefix_len = 2;
            cfg.prefix_sharing_config =
                Some(PrefixSharingConfig { global_len: 3, conversation_len: 0 });
        } else {
            cfg.turn_range = Some(TurnRange { first: bounds, later: bounds });
            with_cache(&mut cfg, 0.5, 0.5, 12);
        }
        generate_multi_turn_random(&tok, &cfg).unwrap()
    };
    for shared in [false, true] {
        let all = make(10, shared);
        for n in 0..10 {
            assert_eq!(messages(&make(n, shared)), messages(&all[..n]));
        }
    }
}

#[test]
fn special_tokens_shorten_turns() {
    let tok = digits_tokenizer(1000, 2);
    let conversations = generate_multi_turn_random(&tok, &config(2, 2, 2, 10, 6, 1, 1)).unwrap();
    for conversation in &conversations {
        assert_eq!(conversation.turns[0].user_message_len, 8);
        assert_eq!(conversation.turns[1].user_message_len, 4);
    }
}

#[test]
fn later_turns_fall_back_to_the_input_len() {
    assert_eq!(check_input_lens(9, 0, 2).unwrap(), (7, 7));
    assert_eq!(check_input_lens(9, 9, 2).unwrap(), (7, 7));
    assert_eq!(check_input_lens(9, 4, 2).unwrap(), (7, 2));
    let tok = digits_tokenizer(1000, 0);
    let conversations = generate_multi_turn_random(&tok, &config(1, 3, 3, 9, 0, 1, 1)).unwrap();
    assert!(conversations[0].turns.iter().all(|t| t.user_message_len == 9));
}

#[test]
fn too_small_lengths_are_refused() {
    let tok = digits_tokenizer(1000, 3);
    assert_eq!(
        message(generate_multi_turn_random(&tok, &config(1, 1, 1, 3, 9, 1, 1)).unwrap_err()),
        "--random-input-len too small: with 3 special tokens, effective input length is 0"
    );
    assert_eq!(
        message(generate_multi_turn_random(&tok, &config(1, 1, 1, 9, 2, 1, 1)).unwrap_err()),
        "--per-turn-input-len too small: with 3 special tokens, \
         effective per-turn input length is 0"
    );
    assert_eq!(
        message(check_input_lens(10, 0, 12).unwrap_err()),
        "--random-input-len too small: with 12 special tokens, effective input length is 0"
    );
}

#[test]
fn empty_vocabulary_is_refused() {
    let tok = digits_tokenizer(0, 0);
    let error = generate_multi_turn_random(&tok, &config(1, 1, 1, 3, 0, 1, 1)).unwrap_err();
    assert!(matches!(&error, BenchError::Tokenizer(_)));
    assert_eq!(message(error), "No allowed tokens found");
    assert!(check_setup(&[], 0, &config(1, 1, 1, 3, 0, 1, 1)).is_err());
    assert_eq!(check_setup(&[1], 1, &config(1, 1, 1, 3, 0, 1, 1)).unwrap(), (2, 2));
}

#[test]
fn fractions_above_one_are_refused() {
    let tok = digits_tokenizer(1000, 0);
    for (hit, ratio) in [(1.5, 0.5), (0.5, 1.5)] {
        let mut cfg = config(1, 1, 1, 4, 0, 1, 1);
        with_cache(&mut cfg, hit, ratio, 4);
        let error = generate_multi_turn_random(&tok, &cfg).unwrap_err();
        assert!(matches!(&error, BenchError::Config(_)));
        assert_eq!(
            message(error),
            "--random-cache-hit-fraction and --random-cache-ratio must be in [0, 1]"
        );
    }
    // A fraction of zero switches the cache off, whatever the other one is.
    let mut cfg = config(1, 1, 1, 4, 0, 1, 1);
    with_cache(&mut cfg, 0.0, 1.5, 4);
    assert!(generate_multi_turn_random(&tok, &cfg).is_ok());
}

#[test]
fn prefixes_that_fill_later_turns_are_refused() {
    let tok = digits_tokenizer(1000, 1);
    let mut cfg = config(1, 1, 1, 101, 61, 1, 1);
    cfg.prefix_sharing_config = Some(sharing(100, 0.1, 0.5));
    assert_eq!(
        message(generate_multi_turn_random(&tok, &cfg).unwrap_err()),
        "--per-turn-input-len (60 after special tokens) is too small: \
         global_len=10 + conv_len=50 already fills the budget. \
         Increase --per-turn-input-len or reduce prefix ratios."
    );
    cfg.per_turn_input_len = 62;
    assert!(generate_multi_turn_random(&tok, &cfg).is_ok());
}

#[test]
fn prefix_sharing_asks_for_room_in_later_turns_only() {
    let tok = digits_tokenizer(1000, 3);
    // Turn 0 is all special tokens; the later turns keep 5 tokens.
    let mut cfg = config(2, 3, 3, 3, 8, 1, 6);
    let none = PrefixSharingConfig { global_len: 0, conversation_len: 0 };
    assert!(is_shareable(&tok, &cfg, none));
    let conversations = generate_prefix_sharing_conversations(&tok, &cfg, none).unwrap();
    for conversation in &conversations {
        let lens: Vec<usize> = conversation.turns.iter().map(|t| t.user_message_len).collect();
        assert_eq!(lens, vec![0, 5, 5]);
    }
    // It is the general checks that refuse such a turn 0.
    cfg.prefix_sharing_config = Some(none);
    assert_eq!(
        message(generate_multi_turn_random(&tok, &cfg).unwrap_err()),
        "--random-input-len too small: with 3 special tokens, effective input length is 0"
    );
    // The budget is asked for even where there is one turn only, and before any token.
    let full = PrefixSharingConfig { global_len: 2, conversation_len: 3 };
    let one_turn = config(2, 1, 1, 30, 8, 1, 6);
    let no_tokens = digits_tokenizer(0, 3);
    assert!(is_shareable(&no_tokens, &one_turn, full));
    assert_eq!(
        message(generate_prefix_sharing_conversations(&no_tokens, &one_turn, full).unwrap_err()),
        "--per-turn-input-len (5 after special tokens) is too small: \
         global_len=2 + conv_len=3 already fills the budget. \
         Increase --per-turn-input-len or reduce prefix ratios."
    );
    assert!(!is_shareable(&no_tokens, &one_turn, none));
}

#[test]
fn prefix_turns_start_apart_even_from_one_offset() {
    let mut tok = digits_tokenizer(1000, 0);
    tok.vocab_size = 1;
    let none = PrefixSharingConfig { global_len: 0, conversation_len: 0 };
    let cfg = config(9, 1, 6, 3, 0, 1, 2);
    let conversations = generate_prefix_sharing_conversations(&tok, &cfg, none).unwrap();
    for (c, conversation) in conversations.iter().enumerate() {
        for (t, turn) in conversation.turns.iter().enumerate() {
            let start = (c * 6 + t) as u32;
            assert_eq!(&*turn.user_message, digits(&[start, start + 1, start + 2]));
        }
    }
}

#[test]
fn prefix_sharing_draws_in_order() {
    let tok = digits_tokenizer(1000, 0);
    let mut cfg = config(3, 1, 3, 10, 8, 1, 91);
    cfg.prefix_len = 2;
    cfg.prefix_sharing_config = Some(PrefixSharingConfig { global_len: 3, conversation_len: 4 });
    let conversations = generate_multi_turn_random(&tok, &cfg).unwrap();

    let circle = |start: usize, len: usize| -> String {
        let tokens: Vec<u32> = (0..len).map(|i| ((start + i) % 1000) as u32).collect();
        digits(&tokens)
    };
    let mut prefix_rng = StdRng::seed_from_u64(91u64.wrapping_add(0xDEAD));
    let prefix: Vec<u32> = (0..2).map(|_| prefix_rng.gen_range(0..1000usize) as u32).collect();
    let mut rng = StdRng::seed_from_u64(91);
    let global = circle(rng.gen_range(0..1000), 3);
    let convs: Vec<String> = (0..3).map(|c| circle(rng.gen_range(0..1000usize) + c, 4)).collect();
    let counts: Vec<usize> = (0..3).map(|_| rng.gen_range(1..=3)).collect();
    for (c, &count) in counts.iter().enumerate() {
        assert_eq!(conversations[c].turns.len(), count);
        for t in 0..count {
            let own = circle(
                rng.gen_range(0..1000usize) + c * 3 + t,
                if t == 0 { 3 } else { 1 },
            );
            let expected = format!("{}{}{}{}", digits(&prefix), global, convs[c], own);
            assert_eq!(&*conversations[c].turns[t].user_message, expected);
            let len = if t == 0 { 12 } else { 10 };
            assert_eq!(conversations[c].turns[t].user_message_len, len);
        }
    }
}

#[test]
fn prefix_sharing_without_prefixes_draws_none() {
    let cfg = config(3, 2, 2, 10, 0, 1, 17);
    let none = PrefixSharingConfig { global_len: 0, conversation_len: 0 };
    let draws = draw_prefixes(1000, 1000, &cfg, none);
    let mut rng = StdRng::seed_from_u64(17);
    assert_eq!(draws.global_offset, 0);
    assert_eq!(draws.conv_offsets, vec![0, 0, 0]);
    for row in &draws.unique_offsets {
        assert_eq!(*row, (0..2).map(|_| rng.gen_range(0..1000)).collect::<Vec<usize>>());
    }
}

#[test]
fn long_prefixes_leave_turn_zero_nothing_of_its_own() {
    let tok = digits_tokenizer(1000, 0);
    let mut cfg = config(2, 2, 2, 5, 20, 1, 17);
    cfg.prefix_sharing_config = Some(PrefixSharingConfig { global_len: 6, conversation_len: 2 });
    let conversations = generate_multi_turn_random(&tok, &cfg).unwrap();
    for conversation in &conversations {
        assert_eq!(conversation.turns[0].user_message_len, 8);
        assert_eq!(conversation.turns[1].user_message_len, 20);
    }
}

#[test]
fn plans_can_be_worked_off_one_by_one() {
    let tok = digits_tokenizer(1000, 0);
    let cfg = config(4, 1, 3, 6, 0, 2, 55);
    let plan = plan_random(&tok, &cfg).unwrap();
    let all = random_conversations(&tok, &plan).unwrap();
    let whole = generate_multi_turn_random(&tok, &cfg).unwrap();
    assert_eq!(messages(&all), messages(&whole));
    for c in 0..4 {
        let one = random_conversation(&tok, &plan, c).unwrap();
        assert_eq!(one.conversation_id, whole[c].conversation_id);
        for t in 0..one.turns.len() {
            let turn = random_turn(&tok, &plan, c, t).unwrap();
            assert_eq!(turn.user_message, one.turns[t].user_message);
            assert_eq!(turn.user_message, whole[c].turns[t].user_message);
        }
    }
}

#[test]
fn prefix_plans_can_be_worked_off_one_by_one() {
    let tok = digits_tokenizer(1000, 0);
    let cfg = config(4, 1, 3, 10, 0, 2, 55);
    let shared = PrefixSharingConfig { global_len: 2, conversation_len: 3 };
    let plan = plan_prefix_sharing(&tok, &cfg, shared).unwrap();
    let whole = generate_prefix_sharing_conversations(&tok, &cfg, shared).unwrap();
    for c in 0..4 {
        let one = prefix_conversation(&tok, &plan, c).unwrap();
        assert_eq!(one.conversation_id, whole[c].conversation_id);
        for t in 0..one.turns.len() {
            let turn = prefix_turn(&tok, &plan, c, t).unwrap();
            assert_eq!(turn.user_message, whole[c].turns[t].user_message);
        }
    }
}

#[test]
fn tokenizer_failures_come_out() {
    let tok = failing_tokenizer("00999");
    // Some turn of a thousand tokens runs over token 999.
    let error = generate_multi_turn_random(&tok, &config(1, 1, 1, 1000, 0, 1, 1)).unwrap_err();
    assert!(matches!(&error, BenchError::Tokenizer(_)));
    assert_eq!(message(error), "cannot encode 00999");
    assert!(make_suffix(&tok, 999, 1).is_err());
    assert_eq!(make_suffix(&tok, 999, 0).unwrap(), (String::new(), Vec::new()));
}

#[test]
fn no_conversations_are_no_error() {
    let tok = digits_tokenizer(1000, 0);
    assert!(generate_multi_turn_random(&tok, &config(0, 3, 2, 5, 0, 1, 1)).unwrap().is_empty());
}

#[test]
fn what_cannot_be_generated_is_told() {
    let tok = digits_tokenizer(1000, 0);
    assert!(is_generable(&tok, &config(3, 1, 2, 5, 0, 1, 1)));
    // Crossed bounds leave nothing to draw from, unless nothing is drawn.
    assert!(!is_generable(&tok, &config(3, 2, 1, 5, 0, 1, 1)));
    assert!(is_generable(&tok, &config(0, 2, 1, 5, 0, 1, 1)));
    // Places that do not fit.
    assert!(!is_generable(&tok, &config(usize::MAX, 2, 2, 5, 0, 1, 1)));
    assert!(!is_generable(&tok, &config(1, 1, 1, usize::MAX, 0, 1, 1)));
    // A configuration that is refused needs no limits.
    assert!(is_generable(&tok, &config(3, 2, 1, 0, 0, 1, 1)));
    // A table of cached lengths that is too short.
    let mut cfg = config(3, 1, 1, 5, 0, 1, 1);
    with_cache(&mut cfg, 0.5, 0.5, 4);
    assert!(!is_generable(&tok, &cfg));
    with_cache(&mut cfg, 0.5, 0.5, 5);
    assert!(is_generable(&tok, &cfg));
    // Prefix lengths whose sum does not fit.
    let mut cfg = config(3, 1, 1, 5, 0, 1, 1);
    cfg.prefix_sharing_config =
        Some(PrefixSharingConfig { global_len: usize::MAX, conversation_len: 1 });
    assert!(!is_generable(&tok, &cfg));
    cfg.prefix_sharing_config = Some(PrefixSharingConfig { global_len: 1, conversation_len: 1 });
    assert!(is_generable(&tok, &cfg));
    let mut no_vocabulary = digits_tokenizer(1000, 0);
    no_vocabulary.vocab_size = 0;
    assert!(!is_generable(&no_vocabulary, &config(1, 1, 1, 5, 0, 1, 1)));
}

#[test]
fn without_text_to_make_the_tokenizer_is_not_asked() {
    let mut tok = failing_tokenizer("");
    assert!(generate_multi_turn_random(&tok, &config(2, 1, 1, 5, 0, 1, 1)).is_err());
    assert!(generate_multi_turn_random(&tok, &config(0, 1, 1, 5, 0, 1, 1)).unwrap().is_empty());
    let silent = generate_multi_turn_random(&tok, &config(2, 0, 0, 5, 0, 1, 1)).unwrap();
    assert!(silent.iter().all(|c| c.turns.is_empty()));
    let mut cfg = config(0, 1, 1, 5, 0, 1, 1);
    cfg.prefix_sharing_config = Some(PrefixSharingConfig { global_len: 0, conversation_len: 2 });
    assert!(generate_multi_turn_random(&tok, &cfg).unwrap().is_empty());
    // Turns that are drawn to have no tokens have no text.
    let none = LengthBounds { low: 0, high: 0 };
    let mut cfg = config(2, 2, 2, 5, 0, 1, 1);
    cfg.turn_range = Some(TurnRange { first: none, later: none });
    let empty = generate_multi_turn_random(&tok, &cfg).unwrap();
    assert!(empty.iter().all(|c| c.turns.iter().all(|t| t.user_message.is_empty())));
    // The prefix is asked for even where there is no conversation.
    let mut cfg = config(0, 1, 1, 5, 0, 1, 1);
    cfg.prefix_len = 1;
    assert!(generate_multi_turn_random(&tok, &cfg).is_err());
    tok.vocab_size = 0;
    assert!(generate_multi_turn_random(&tok, &config(0, 1, 1, 5, 0, 1, 1)).is_ok());
}
