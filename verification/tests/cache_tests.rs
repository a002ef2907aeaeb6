use inferrust_proxy::cache::{
    cache_key_preimage_bytes, generate_cache_key, key_from_digest, u64_be_bytes, CacheKeyFields,
    DEFAULT_MAX_TOKENS, DEFAULT_TEMPERATURE_BITS,
};

fn chat_fields(content: &str, temperature: Option<f64>) -> CacheKeyFields {
    CacheKeyFields {
        model: Some("llama2".to_string()),
        messages_json: Some(format!("[{{\"role\":\"user\",\"content\":\"{}\"}}]", content).into_bytes()),
        temperature_bits: temperature.map(|t| t.to_bits()),
        max_tokens: None,
    }
}

#[test]
fn default_temperature_is_one() {
    assert_eq!(DEFAULT_TEMPERATURE_BITS, 1.0f64.to_bits());
    assert_eq!(DEFAULT_MAX_TOKENS, 2048);
}

#[test]
fn big_endian_bytes() {
    assert_eq!(u64_be_bytes(0x0102_0304_0506_0708), vec![1, 2, 3, 4, 5, 6, 7, 8]);
    assert_eq!(u64_be_bytes(1.0f64.to_bits()), 1.0f64.to_be_bytes().to_vec());
}

#[test]
fn preimage_frames_fields() {
    let fields = chat_fields("Hi", None);
    let mut expected = b"llama2|[{\"role\":\"user\",\"content\":\"Hi\"}]|".to_vec();
    expected.extend_from_slice(&1.0f64.to_be_bytes());
    expected.push(b'|');
    expected.extend_from_slice(&2048u64.to_be_bytes());
    assert_eq!(cache_key_preimage_bytes(&fields), expected);
}

#[test]
fn preimage_of_bare_request_uses_defaults() {
    let fields = CacheKeyFields { model: None, messages_json: None, temperature_bits: None, max_tokens: Some(7) };
    let mut expected = b"default||".to_vec();
    expected.extend_from_slice(&1.0f64.to_be_bytes());
    expected.push(b'|');
    expected.extend_from_slice(&7u64.to_be_bytes());
    assert_eq!(cache_key_preimage_bytes(&fields), expected);
}

#[test]
fn cache_key_is_sha256_hex() {
    let key = generate_cache_key(&chat_fields("Hi", None));
    assert_eq!(key, "b4830d038178f0e8498c2edbbab92ee011d188926e50360fb0d5c7e3987c5376");
}

#[test]
fn cache_key_of_null_messages() {
    let fields = CacheKeyFields {
        model: None,
        messages_json: Some(b"null".to_vec()),
        temperature_bits: Some(0.0f64.to_bits()),
        max_tokens: Some(16),
    };
    assert_eq!(
        generate_cache_key(&fields),
        "6111b6d02cce700c7780d5c1176a40b1735ff481f1718516a8da64803472ca9e"
    );
}

#[test]
fn key_from_digest_is_lowercase_hex() {
    assert_eq!(key_from_digest(&[0xbe, 0xef, 0x00, 0x0a]), "beef000a");
    assert_eq!(key_from_digest(&[]), "");
}

// Library-level form of the original end-to-end test: the keys of two requests
// that differ only in temperature differ.
#[test]
fn test_cache_poisoning_prevention_with_different_temperature() {
    let k1 = generate_cache_key(&chat_fields("Explain Rust", Some(1.0)));
    let k2 = generate_cache_key(&chat_fields("Explain Rust", Some(0.0)));
    assert_ne!(k1, k2);
    assert_eq!(k1.len(), 64);
}

#[test]
fn same_request_same_key() {
    let k1 = generate_cache_key(&chat_fields("Hi", None));
    let k2 = generate_cache_key(&chat_fields("Hi", Some(1.0)));
    assert_eq!(k1, k2);
    let k3 = generate_cache_key(&chat_fields("Hello", None));
    assert_ne!(k1, k3);
}

#[test]
fn model_and_messages_separate_keys() {
    let a = CacheKeyFields { model: Some("llama2".to_string()), messages_json: Some(b"[]".to_vec()), temperature_bits: None, max_tokens: None };
    let b = CacheKeyFields { model: Some("llama3".to_string()), messages_json: Some(b"[]".to_vec()), temperature_bits: None, max_tokens: None };
    let c = CacheKeyFields { model: None, messages_json: Some(b"[]".to_vec()), temperature_bits: None, max_tokens: None };
    assert_ne!(generate_cache_key(&a), generate_cache_key(&b));
    assert_ne!(generate_cache_key(&a), generate_cache_key(&c));
}

#[test]
fn separator_in_model_name_can_alias_non_json_bytes() {
    // Message bytes that are not JSON text can make the framing ambiguous
    // when the model name holds '|'.
    let a = CacheKeyFields { model: Some("a|b".to_string()), messages_json: Some(b"c".to_vec()), temperature_bits: None, max_tokens: None };
    let b = CacheKeyFields { model: Some("a".to_string()), messages_json: Some(b"b|c".to_vec()), temperature_bits: None, max_tokens: None };
    assert_eq!(cache_key_preimage_bytes(&a), cache_key_preimage_bytes(&b));
}

#[test]
fn json_messages_separate_even_with_separator_in_model() {
    let a = CacheKeyFields { model: Some("a|b".to_string()), messages_json: Some(b"\"c\"".to_vec()), temperature_bits: None, max_tokens: None };
    let b = CacheKeyFields { model: Some("a".to_string()), messages_json: Some(b"\"b|c\"".to_vec()), temperature_bits: None, max_tokens: None };
    assert_ne!(cache_key_preimage_bytes(&a), cache_key_preimage_bytes(&b));
    assert_ne!(generate_cache_key(&a), generate_cache_key(&b));
}
