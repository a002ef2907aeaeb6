use inferrust_proxy::tokens::{
    checked_prompt_tokens, estimate_prompt_tokens, is_deterministic, truncation_is_safe,
    try_estimate_prompt_tokens, MessageText, MessageTokenCounts,
};
use tokenizers::Tokenizer;

fn word_tokenizer() -> Tokenizer {
    word_tokenizer_with("null")
}

fn word_tokenizer_with(truncation: &str) -> Tokenizer {
    let json = r#"{
        "version": "1.0",
        "truncation": TRUNCATION,
        "padding": null,
        "added_tokens": [],
        "normalizer": null,
        "pre_tokenizer": {"type": "Whitespace"},
        "post_processor": null,
        "decoder": null,
        "model": {"type": "WordLevel", "vocab": {"[UNK]": 0, "hello": 1, "how": 2, "are": 3, "you": 4, "Hello": 5, ",": 6, "today": 7, "?": 8}, "unk_token": "[UNK]"}
    }"#;
    json.replace("TRUNCATION", truncation).parse::<Tokenizer>().unwrap()
}

#[test]
fn totals_from_counts() {
    assert_eq!(checked_prompt_tokens(&None), Some(0));
    assert_eq!(checked_prompt_tokens(&Some(vec![])), Some(3));
    let counts = vec![
        MessageTokenCounts { content: Some(5), name: None },
        MessageTokenCounts { content: None, name: Some(2) },
    ];
    // (3 + 5) + (3 + 2 + 1) + 3
    assert_eq!(checked_prompt_tokens(&Some(counts)), Some(17));
    let huge = vec![MessageTokenCounts { content: Some(usize::MAX - 3), name: None }];
    assert_eq!(checked_prompt_tokens(&Some(huge)), None);
}

// Library-level form of the original end-to-end test: the estimate behind the
// x-prompt-tokens header, for the same message, with a small word-level tokenizer.
#[test]
fn test_proxy_injects_token_count_header() {
    let tok = word_tokenizer();
    let messages = Some(vec![MessageText { content: Some("Hello, how are you today?".to_string()), name: None }]);
    let e = estimate_prompt_tokens(&tok, &messages);
    let counts = e.counts.unwrap();
    // Hello , how are you today ?
    assert_eq!(counts[0].content, Some(7));
    assert_eq!(counts[0].name, None);
    assert_eq!(e.total, Some(3 + 7 + 3));
    assert!(e.total.unwrap() > 0);
}

#[test]
fn names_cost_one_more() {
    let tok = word_tokenizer();
    let messages = Some(vec![
        MessageText { content: Some("hello".to_string()), name: Some("you".to_string()) },
        MessageText { content: None, name: None },
    ]);
    let e = estimate_prompt_tokens(&tok, &messages);
    assert_eq!(e.total, Some((3 + 1 + 1 + 1) + 3 + 3));
}

#[test]
fn no_message_list_costs_nothing() {
    let tok = word_tokenizer();
    let e = estimate_prompt_tokens(&tok, &None);
    assert!(e.counts.is_none());
    assert_eq!(e.total, Some(0));
}

fn one_message(text: &str) -> Option<Vec<MessageText>> {
    Some(vec![MessageText { content: Some(text.to_string()), name: None }])
}

#[test]
fn truncation_settings_are_checked() {
    let plain = word_tokenizer();
    assert!(truncation_is_safe(&plain));
    assert!(is_deterministic(&plain));
    let unsafe_tok = word_tokenizer_with(
        r#"{"direction": "Right", "max_length": 4, "strategy": "LongestFirst", "stride": 4}"#,
    );
    assert!(!truncation_is_safe(&unsafe_tok));
    assert!(try_estimate_prompt_tokens(&unsafe_tok, &one_message("hello how are you hello how")).is_none());
}

#[test]
fn truncated_tokenizer_counts_truncated_ids() {
    let tok = word_tokenizer_with(
        r#"{"direction": "Right", "max_length": 4, "strategy": "LongestFirst", "stride": 1}"#,
    );
    assert!(truncation_is_safe(&tok));
    let e = try_estimate_prompt_tokens(&tok, &one_message("hello how are you hello how")).unwrap();
    assert_eq!(e.counts.unwrap()[0].content, Some(4));
    assert_eq!(e.total, Some(3 + 4 + 3));
}

#[test]
fn sampling_model_is_reported() {
    let json = r#"{
        "version": "1.0",
        "truncation": null,
        "padding": null,
        "added_tokens": [],
        "normalizer": null,
        "pre_tokenizer": null,
        "post_processor": null,
        "decoder": null,
        "model": {"type": "BPE", "dropout": 0.5, "unk_token": null, "continuing_subword_prefix": null,
                  "end_of_word_suffix": null, "fuse_unk": false, "byte_fallback": false,
                  "ignore_merges": false, "vocab": {"a": 0, "b": 1, "ab": 2}, "merges": [["a", "b"]]}
    }"#;
    let tok = json.parse::<Tokenizer>().unwrap();
    assert!(!is_deterministic(&tok));
    assert!(is_deterministic(&word_tokenizer()));
}
