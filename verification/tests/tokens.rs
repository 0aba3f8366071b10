use std::str::FromStr;

use pixl::tokens::{fit_token_ids, pad_id, pad_key, pad_or_zero, prompt_token_ids};
use tokenizers::Tokenizer;

const WORD_LEVEL: &str = r#"{
  "version": "1.0",
  "truncation": null,
  "padding": null,
  "added_tokens": [],
  "normalizer": null,
  "pre_tokenizer": {"type": "Whitespace"},
  "post_processor": null,
  "decoder": null,
  "model": {
    "type": "WordLevel",
    "vocab": {"a": 0, "b": 1, "<|endoftext|>": 2, "[UNK]": 3, "<pad>": 4},
    "unk_token": "[UNK]"
  }
}"#;

fn word_level() -> Tokenizer {
    Tokenizer::from_str(WORD_LEVEL).expect("tokenizer json")
}

#[test]
fn pad_key_defaults_to_end_of_text() {
    assert_eq!(pad_key(None), "<|endoftext|>");
    assert_eq!(pad_key(Some("!")), "!");
}

#[test]
fn pad_or_zero_falls_back_to_zero() {
    assert_eq!(pad_or_zero(Some(49407)), 49407);
    assert_eq!(pad_or_zero(None), 0);
}

#[test]
fn pad_id_looks_up_the_pad_key() {
    let tok = word_level();
    assert_eq!(pad_id(&tok, None), 2);
    assert_eq!(pad_id(&tok, Some("<pad>")), 4);
    assert_eq!(pad_id(&tok, Some("missing")), 0);
}

#[test]
fn prompt_ids_are_padded_to_the_context() {
    let tok = word_level();
    let ids = prompt_token_ids(&tok, "a b a", 5, 2).unwrap();
    assert_eq!(ids, vec![0, 1, 0, 2, 2]);
}

#[test]
fn over_long_prompt_keeps_a_terminator() {
    let tok = word_level();
    let ids = prompt_token_ids(&tok, "a b a b", 3, 2).unwrap();
    assert_eq!(ids, vec![0, 1, 2]);
    assert_eq!(fit_token_ids(vec![0, 1, 0, 1], 3, 2), vec![0, 1, 2]);
}
