//! Conversations from a ShareGPT dataset.
use rand::rngs::StdRng;
use rand::seq::SliceRandom;
use rand::{Rng, SeedableRng};
use vllm_bench::datasets::json::{parse_json, Json};
use vllm_bench::datasets::sharegpt::{
    eligible_places, entry_turns, load_json, load_sharegpt_multi_turn, read_error, text_member,
};
use vllm_bench::error::BenchError;
use vllm_bench::tokenizer::TokenizerKind;

/// A tokenizer with one token per character, which cannot encode `bad`.
fn chars_tokenizer(
    bad: char,
) -> TokenizerKind<
    impl Fn(&[u32], bool) -> Result<String, BenchError>,
    impl Fn(&str, bool) -> Result<Vec<u32>, BenchError>,
> {
    TokenizerKind::new(
        |tokens: &[u32], _skip: bool| {
            Ok(tokens.iter().map(|t| char::from_u32(*t).unwrap()).collect::<String>())
        },
        move |text: &str, _add: bool| {
            if text.contains(bad) {
                Err(BenchError::Tokenizer(format!("cannot encode '{text}'")))
            } else {
                Ok(text.chars().map(|c| c as u32).collect::<Vec<u32>>())
            }
        },
        vec![65],
        1000,
        0,
    )
}

fn message(error: BenchError) -> String {
    match error {
        BenchError::Config(text) => text,
        BenchError::Tokenizer(text) => text,
    }
}

fn said(from: &str, value: &str) -> String {
    format!("{{\"from\": \"{from}\", \"value\": \"{value}\"}}")
}

/// An entry of `pairs` exchanges, whose texts begin with `name`.
fn entry(name: &str, pairs: usize) -> String {
    let mut messages: Vec<String> = Vec::new();
    for i in 0..pairs {
        messages.push(said("human", &format!("{name}{i}")));
        messages.push(said("gpt", &format!("{name}-reply-{i}")));
    }
    format!("{{\"id\": 1, \"conversations\": [{}]}}", messages.join(", "))
}

fn list(entries: &[String]) -> String {
    format!("[{}]", entries.join(", "))
}

#[test]
fn whole_entries_become_conversations() {
    let tok = chars_tokenizer('!');
    let load =
        load_sharegpt_multi_turn(&tok, &list(&[entry("a", 3)]), 1, None, None, 0, "s-").unwrap();
    assert_eq!(load.original_len, 1);
    assert_eq!(load.conversations.len(), 1);
    let conversation = &load.conversations[0];
    assert_eq!(conversation.conversation_id, "s-conv-0");
    assert_eq!(conversation.turns.len(), 3);
    assert_eq!(&*conversation.turns[2].user_message, "a2");
    assert_eq!(conversation.turns[2].user_message_len, 2);
    assert_eq!(conversation.turns[2].expected_output_len, "a-reply-2".len());
}

#[test]
fn output_lengths_can_be_set() {
    let tok = chars_tokenizer('!');
    let text = list(&[entry("a", 2)]);
    let load = load_sharegpt_multi_turn(&tok, &text, 1, Some(77), None, 0, "").unwrap();
    assert!(load.conversations[0].turns.iter().all(|t| t.expected_output_len == 77));
    let load = load_sharegpt_multi_turn(&tok, &text, 1, Some(0), None, 0, "").unwrap();
    assert!(load.conversations[0].turns.iter().all(|t| t.expected_output_len == 0));
}

#[test]
fn empty_replies_count_as_one_token() {
    let tok = chars_tokenizer('!');
    let text = format!(
        "[{{\"conversations\": [{}, {}, {}, {{\"from\": \"gpt\"}}]}}]",
        said("human", "x"),
        said("gpt", ""),
        said("human", "yz"),
    );
    let load = load_sharegpt_multi_turn(&tok, &text, 1, None, None, 0, "").unwrap();
    let lens: Vec<usize> =
        load.conversations[0].turns.iter().map(|t| t.expected_output_len).collect();
    assert_eq!(lens, vec![1, 1]);
}

#[test]
fn turns_stop_at_the_maximum() {
    let tok = chars_tokenizer('!');
    let text = list(&[entry("a", 5)]);
    let load = load_sharegpt_multi_turn(&tok, &text, 1, None, Some(3), 0, "").unwrap();
    assert_eq!(load.conversations[0].turns.len(), 3);
    let load = load_sharegpt_multi_turn(&tok, &text, 1, None, Some(9), 0, "").unwrap();
    assert_eq!(load.conversations[0].turns.len(), 5);
    // Texts past the maximum are not tokenized.
    let tok = chars_tokenizer('4');
    let load = load_sharegpt_multi_turn(&tok, &text, 1, None, Some(4), 0, "").unwrap();
    assert_eq!(load.conversations[0].turns.len(), 4);
    assert!(load_sharegpt_multi_turn(&tok, &text, 1, None, Some(5), 0, "").is_err());
}

#[test]
fn other_messages_are_skipped() {
    let tok = chars_tokenizer('!');
    let messages = parse_json(&list(&[
        said("system", "s"),
        said("human", "one"),
        said("gpt", "r1"),
        said("gpt", "r1 again"),
        said("human", ""),
        said("human", "two"),
        said("human", "not an answer"),
        "7".to_string(),
        "{\"from\": 3, \"value\": \"x\"}".to_string(),
        said("human", "three"),
    ]))
    .unwrap();
    let turns = entry_turns(&tok, messages.as_array().unwrap(), None, None).unwrap();
    let texts: Vec<&str> = turns.iter().map(|t| &*t.user_message).collect();
    assert_eq!(texts, vec!["one", "two"]);
    // What follows a person's message is the reply, whoever it is from.
    assert_eq!(turns[1].expected_output_len, "not an answer".len());
}

#[test]
fn only_entries_with_four_messages_are_eligible() {
    let data = parse_json(&list(&[
        entry("a", 1),
        entry("b", 2),
        "{}".to_string(),
        "{\"conversations\": 4}".to_string(),
        "null".to_string(),
        entry("c", 7),
        "{\"conversations\": [1, 2, 3, 4]}".to_string(),
    ]))
    .unwrap();
    assert_eq!(eligible_places(data.as_array().unwrap()), vec![1, 5, 6]);
}

#[test]
fn entries_are_taken_in_shuffled_order() {
    let tok = chars_tokenizer('!');
    let names = ["a", "b", "c", "d", "e", "f", "g", "h"];
    let entries: Vec<String> = names.iter().map(|n| entry(n, 2)).collect();
    for seed in 0..5 {
        let load =
            load_sharegpt_multi_turn(&tok, &list(&entries), 6, None, None, seed, "").unwrap();
        let mut order: Vec<&str> = names.to_vec();
        order.shuffle(&mut StdRng::seed_from_u64(seed));
        assert_eq!(load.original_len, 6);
        for (i, conversation) in load.conversations.iter().enumerate() {
            assert_eq!(conversation.conversation_id, format!("conv-{i}"));
            assert_eq!(&*conversation.turns[0].user_message, format!("{}0", order[i]));
        }
    }
}

#[test]
fn missing_conversations_are_copied() {
    let tok = chars_tokenizer('!');
    let names = ["a", "b", "c"];
    let entries: Vec<String> = names.iter().map(|n| entry(n, 2)).collect();
    let load = load_sharegpt_multi_turn(&tok, &list(&entries), 10, None, None, 31, "p-").unwrap();
    assert_eq!(load.original_len, 3);
    assert_eq!(load.conversations.len(), 10);
    let mut rng = StdRng::seed_from_u64(31);
    let mut order: Vec<&str> = names.to_vec();
    order.shuffle(&mut rng);
    for i in 3..10 {
        let name = order[rng.gen_range(0..3usize)];
        assert_eq!(load.conversations[i].conversation_id, format!("p-conv-{i}"));
        assert_eq!(load.conversations[i].turns.len(), 2);
        assert_eq!(&*load.conversations[i].turns[1].user_message, format!("{name}1"));
        assert_eq!(load.conversations[i].turns[1].user_message_len, 2);
    }
}

#[test]
fn bounds_on_turns_only_truncate() {
    let tok = chars_tokenizer('!');
    let entries: Vec<String> =
        ["a", "b", "c", "d"].iter().zip([2, 6, 1, 4]).map(|(n, k)| entry(n, k)).collect();
    let text = list(&entries);
    for max in 2..8 {
        let full = load_sharegpt_multi_turn(&tok, &text, 9, None, None, 4, "t-").unwrap();
        let cut = load_sharegpt_multi_turn(&tok, &text, 9, None, Some(max), 4, "t-").unwrap();
        assert_eq!(cut.original_len, full.original_len);
        assert_eq!(cut.conversations.len(), full.conversations.len());
        for (short, long) in cut.conversations.iter().zip(&full.conversations) {
            assert_eq!(short.conversation_id, long.conversation_id);
            assert_eq!(short.turns.len(), long.turns.len().min(max));
            for (a, b) in short.turns.iter().zip(&long.turns) {
                assert_eq!(a.user_message, b.user_message);
                assert_eq!(a.user_message_len, b.user_message_len);
                assert_eq!(a.expected_output_len, b.expected_output_len);
            }
        }
    }
}

#[test]
fn output_lengths_change_nothing_else() {
    let tok = chars_tokenizer('!');
    let entries: Vec<String> = ["a", "b", "c"].iter().map(|n| entry(n, 3)).collect();
    let text = list(&entries);
    for len in [0, 1, 500] {
        let counted = load_sharegpt_multi_turn(&tok, &text, 8, None, Some(2), 4, "").unwrap();
        let set = load_sharegpt_multi_turn(&tok, &text, 8, Some(len), Some(2), 4, "").unwrap();
        assert_eq!(counted.original_len, set.original_len);
        assert_eq!(counted.conversations.len(), set.conversations.len());
        for (a, b) in counted.conversations.iter().zip(&set.conversations) {
            assert_eq!(a.conversation_id, b.conversation_id);
            assert_eq!(a.turns.len(), b.turns.len());
            for (x, y) in a.turns.iter().zip(&b.turns) {
                assert_eq!(x.user_message, y.user_message);
                assert_eq!(x.user_message_len, y.user_message_len);
                assert!(x.expected_output_len >= 1);
                assert_eq!(y.expected_output_len, len);
            }
        }
    }
}

#[test]
fn entries_are_taken_once_while_there_are_others() {
    let tok = chars_tokenizer('!');
    let names = ["a", "b", "c", "d", "e", "f"];
    let entries: Vec<String> = names.iter().map(|n| entry(n, 2)).collect();
    for seed in 0..20 {
        let load =
            load_sharegpt_multi_turn(&tok, &list(&entries), 6, None, None, seed, "").unwrap();
        let mut first: Vec<String> =
            load.conversations.iter().map(|c| c.turns[0].user_message.to_string()).collect();
        first.sort();
        assert_eq!(first, vec!["a0", "b0", "c0", "d0", "e0", "f0"]);
    }
}

#[test]
fn entries_with_one_turn_are_passed_over() {
    let tok = chars_tokenizer('!');
    let single = format!(
        "{{\"conversations\": [{}, {}, {}, {}]}}",
        said("human", "x"),
        said("gpt", "r"),
        said("gpt", "r"),
        said("gpt", "r"),
    );
    let text = list(&[single.clone(), entry("a", 2), single.clone()]);
    let load = load_sharegpt_multi_turn(&tok, &text, 1, None, None, 0, "").unwrap();
    assert_eq!(&*load.conversations[0].turns[0].user_message, "a0");
    let error =
        load_sharegpt_multi_turn(&tok, &list(&[single]), 1, None, None, 0, "").err().unwrap();
    assert_eq!(
        message(error),
        "No valid multi-turn conversations after filtering ShareGPT dataset."
    );
    let error = load_sharegpt_multi_turn(&tok, &list(&[entry("a", 2)]), 1, None, Some(1), 0, "");
    assert_eq!(
        message(error.err().unwrap()),
        "No valid multi-turn conversations after filtering ShareGPT dataset."
    );
}

#[test]
fn unusable_datasets_are_refused() {
    let tok = chars_tokenizer('!');
    let load = |text: &str, n: usize| {
        message(load_sharegpt_multi_turn(&tok, text, n, None, None, 0, "").err().unwrap())
    };
    assert_eq!(load("{\"a\": 1}", 1), "ShareGPT file must contain a JSON array");
    assert_eq!(
        load("[]", 1),
        "No valid multi-turn entries in ShareGPT file (need at least 4 messages per entry)"
    );
    assert_eq!(
        load(&list(&[entry("a", 1)]), 1),
        "No valid multi-turn entries in ShareGPT file (need at least 4 messages per entry)"
    );
    assert_eq!(
        load(&list(&[entry("a", 2)]), 0),
        "No valid multi-turn conversations after filtering ShareGPT dataset."
    );
    assert_eq!(
        load("[1, 2", 1),
        "Invalid JSON in ShareGPT file: EOF while parsing a list at line 1 column 5"
    );
}

#[test]
fn refusals_that_need_no_tokens_come_before_tokenizing() {
    // This tokenizer fails on every text.
    let tok = TokenizerKind::new(
        |_tokens: &[u32], _skip: bool| Err(BenchError::Tokenizer("no decoder".to_string())),
        |_text: &str, _add: bool| Err(BenchError::Tokenizer("no encoder".to_string())),
        vec![65],
        1000,
        0,
    );
    let load = |text: &str, n: usize, max: Option<usize>| {
        message(load_sharegpt_multi_turn(&tok, text, n, None, max, 0, "").err().unwrap())
    };
    let nothing_taken = "No valid multi-turn conversations after filtering ShareGPT dataset.";
    assert_eq!(load("true", 1, None), "ShareGPT file must contain a JSON array");
    assert_eq!(
        load(&list(&[entry("a", 1)]), 1, None),
        "No valid multi-turn entries in ShareGPT file (need at least 4 messages per entry)"
    );
    // What comes first is complained about first.
    assert_eq!(
        load("[]", 0, None),
        "No valid multi-turn entries in ShareGPT file (need at least 4 messages per entry)"
    );
    assert_eq!(load(&list(&[entry("a", 2)]), 0, None), nothing_taken);
    assert_eq!(load(&list(&[entry("a", 2)]), 3, Some(0)), nothing_taken);
    assert_eq!(load("[{\"conversations\": [1, 2, 3, 4]}]", 3, None), nothing_taken);
    assert_eq!(load(&list(&[entry("a", 2)]), 3, None), "no encoder");
}

#[test]
fn fewer_loaded_conversations_are_the_first() {
    let tok = chars_tokenizer('!');
    let entries: Vec<String> = ["a", "b", "c", "d"].iter().map(|n| entry(n, 2)).collect();
    let text = list(&entries);
    let all = load_sharegpt_multi_turn(&tok, &text, 12, None, None, 8, "f-").unwrap();
    assert_eq!(all.original_len, 4);
    for n in 1..12 {
        let some = load_sharegpt_multi_turn(&tok, &text, n, None, None, 8, "f-").unwrap();
        assert_eq!(some.original_len, n.min(4));
        assert_eq!(some.conversations.len(), n);
        for (a, b) in some.conversations.iter().zip(&all.conversations) {
            assert_eq!(a.conversation_id, b.conversation_id);
            assert_eq!(a.turns[0].user_message, b.turns[0].user_message);
            assert_eq!(a.turns[1].user_message, b.turns[1].user_message);
        }
    }
}

#[test]
fn failures_to_tokenize_come_out() {
    let tok = chars_tokenizer('!');
    let text = list(&[entry("a!", 2)]);
    let error = load_sharegpt_multi_turn(&tok, &text, 1, None, None, 0, "").err().unwrap();
    assert!(matches!(&error, BenchError::Tokenizer(_)));
    assert_eq!(message(error), "cannot encode 'a!0'");
}

#[test]
fn unreadable_files_are_named() {
    let error = read_error("data.json", "No such file or directory (os error 2)");
    assert_eq!(
        message(error),
        "Failed to read ShareGPT file 'data.json': No such file or directory (os error 2)"
    );
}

#[test]
fn parsed_values_are_taken_over_whole() {
    let json = parse_json(
        "{\"n\": null, \"t\": true, \"i\": -12, \"f\": 1.5, \"s\": \"x\\ny\", \"a\": [[], {}]}",
    )
    .unwrap();
    assert!(matches!(json.get("n"), Some(Json::Null)));
    assert!(matches!(json.get("t"), Some(Json::Bool(true))));
    assert!(matches!(json.get("i"), Some(Json::Number(text)) if text == "-12"));
    assert!(matches!(json.get("f"), Some(Json::Number(text)) if text == "1.5"));
    assert_eq!(json.get("s").unwrap().as_str(), Some("x\ny"));
    let items = json.get("a").unwrap().as_array().unwrap();
    assert!(matches!(&items[0], Json::Array(inner) if inner.is_empty()));
    assert!(matches!(&items[1], Json::Object(inner) if inner.is_empty()));
    assert!(json.get("missing").is_none());
    assert!(json.as_array().is_none());
    assert!(json.as_str().is_none());
    assert!(items[0].get("n").is_none());
}

#[test]
fn the_last_of_equal_members_counts() {
    let json = parse_json("{\"value\": \"first\", \"value\": \"second\"}").unwrap();
    assert_eq!(text_member(&json, "value"), "second");
    assert_eq!(text_member(&json, "from"), "");
}

#[test]
fn hand_made_values_load_too() {
    let tok = chars_tokenizer('!');
    let message_of = |from: &str, value: &str| {
        Json::Object(vec![
            ("from".to_string(), Json::Text(from.to_string())),
            ("value".to_string(), Json::Text(value.to_string())),
        ])
    };
    let data = Json::Array(vec![Json::Object(vec![(
        "conversations".to_string(),
        Json::Array(vec![
            message_of("human", "hello"),
            message_of("gpt", "hi"),
            message_of("human", "bye"),
            message_of("gpt", "so long"),
        ]),
    )])]);
    let load = load_json(&tok, &data, 2, None, None, 9, "h-").unwrap();
    assert_eq!(load.original_len, 1);
    assert_eq!(load.conversations[1].conversation_id, "h-conv-1");
    assert_eq!(&*load.conversations[1].turns[1].user_message, "bye");
    assert_eq!(load.conversations[1].turns[1].expected_output_len, 7);
}
