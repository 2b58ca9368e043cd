//! Safetensors headers and the config beside them.

use sift::json::{self, Json};
use sift::model::safetensors::{facts_from_config, hf_config_url, shard_position};
use sift::model::{ArchFacts, Safetensors, SafetensorsError};

fn file_with(header: &str) -> Vec<u8> {
    let mut v = (header.len() as u64).to_le_bytes().to_vec();
    v.extend_from_slice(header.as_bytes());
    // A byte of "payload", which must never be read.
    v.push(0);
    v
}

#[test]
fn tensor_size_comes_from_the_offsets_not_a_dtype_table() {
    let f = file_with(
        r#"{"__metadata__":{"format":"pt"},
            "a.weight":{"dtype":"BF16","shape":[2,4],"data_offsets":[0,16]},
            "b.weight":{"dtype":"SOMETHING_NEW","shape":[4],"data_offsets":[16,20]}}"#,
    );
    let st = Safetensors::parse(&f).expect("parse");
    assert_eq!(st.tensors.len(), 2, "__metadata__ is not a tensor");
    assert_eq!(st.total_bytes, 20);

    let b = st.tensors.iter().find(|t| t.name == "b.weight").unwrap();
    assert_eq!(b.size_bytes, 4);
    assert_eq!(b.n_elems, 4);
}

#[test]
fn a_header_length_that_cannot_be_right_is_rejected_not_allocated() {
    let mut v = u64::MAX.to_le_bytes().to_vec();
    v.extend_from_slice(b"{}");
    let err = Safetensors::parse(&v).expect_err("must reject");
    assert!(matches!(err, SafetensorsError::ImplausibleHeader(_)));
}

#[test]
fn a_header_with_no_tensors_is_an_error_rather_than_an_empty_model() {
    let f = file_with(r#"{"__metadata__":{"format":"pt"}}"#);
    assert!(matches!(
        Safetensors::parse(&f).expect_err("must reject"),
        SafetensorsError::Empty
    ));
}

fn member(key: &str, value: Json) -> (String, Json) {
    (key.to_string(), value)
}

#[test]
fn config_keys_are_translated_to_the_shared_names() {
    // Real OLMoE config values.
    let cfg = Json::Object(vec![
        member("architectures", Json::Array(vec![Json::Str("OlmoeForCausalLM".to_string())])),
        member("num_hidden_layers", Json::Uint(16)),
        member("num_attention_heads", Json::Uint(16)),
        member("num_key_value_heads", Json::Uint(16)),
        member("hidden_size", Json::Uint(2048)),
        member("max_position_embeddings", Json::Uint(4096)),
        member("num_experts", Json::Uint(64)),
        member("num_experts_per_tok", Json::Uint(8)),
    ]);
    let f = facts_from_config(&cfg);
    assert_eq!(f.architecture.as_deref(), Some("OlmoeForCausalLM"));
    assert_eq!(f.block_count, Some(16));
    assert_eq!(f.head_count_kv, Some(16));
    assert_eq!(f.embedding_length, Some(2048));
    assert_eq!(f.context_length, Some(4096));
    assert_eq!(f.expert_used_count, Some(8));
    // Not stated by this model, so left to be derived.
    assert_eq!(f.key_length, None);
}

#[test]
fn a_config_missing_everything_yields_no_facts_rather_than_zeros() {
    let f = facts_from_config(&Json::Object(vec![]));
    assert_eq!(f, ArchFacts::default());
}

#[test]
fn split_safetensors_are_recognised() {
    let (base, i, n) = shard_position("model-00002-of-00003.safetensors").unwrap();
    assert_eq!(base, "model.safetensors");
    assert_eq!((i, n), (2, 3));
    assert!(shard_position("model.safetensors").is_none());
}

// What is proved of all inputs, on a few.

#[test]
fn every_error_says_what_is_wrong() {
    assert_eq!(
        Safetensors::parse(&[1, 2, 3]).unwrap_err(),
        SafetensorsError::Truncated { needed: 8 }
    );
    let mut v = 100u64.to_le_bytes().to_vec();
    v.push(b'{');
    assert_eq!(
        Safetensors::parse(&v).unwrap_err(),
        SafetensorsError::Truncated { needed: 108 }
    );
    let e = Safetensors::parse(&file_with("not JSON")).unwrap_err();
    assert!(e.message().starts_with("header is not valid JSON: "), "{}", e.message());
    let e = Safetensors::parse(&file_with("[1]")).unwrap_err();
    assert!(matches!(e, SafetensorsError::Json(_)), "{e:?}");
    let e = Safetensors::parse(&file_with(
        r#"{"a":{"dtype":"F32","shape":[18446744073709551615,2],"data_offsets":[0,1]}}"#,
    ))
    .unwrap_err();
    assert_eq!(e, SafetensorsError::Oversized);
    assert_eq!(
        SafetensorsError::ImplausibleHeader(0).message(),
        "header claims 0 bytes, which is not a safetensors file"
    );
    assert_eq!(SafetensorsError::Empty.message(), "header has no tensors");
}

#[test]
fn the_front_of_a_file_is_enough() {
    let mut f = file_with(r#"{"a":{"dtype":"F32","shape":[2],"data_offsets":[0,8]}}"#);
    let front = Safetensors::parse(&f).expect("parse");
    f.extend_from_slice(&[9; 1000]);
    assert_eq!(Safetensors::parse(&f).expect("parse"), front);
}

#[test]
fn a_config_is_fetched_from_the_repo() {
    assert_eq!(
        hf_config_url("org/repo"),
        "https://huggingface.co/org/repo/resolve/main/config.json"
    );
    let cfg = json::parse(br#"{"model_type":"llama","num_experts_per_token":4}"#).unwrap();
    let f = facts_from_config(&cfg);
    assert_eq!(f.architecture.as_deref(), Some("llama"));
    assert_eq!(f.expert_used_count, Some(4));
}
