//! Local models across the tools that keep them.

use sift::engine::Regime;
use sift::fit::Estimate;
use sift::ls::{
    blob_name, discover, errored, evaluate, is_model_file, libraries, manifest_name, model_file,
    ollama_model, read_manifest, truncate, LocalModel,
};
use sift::model::{ArchFacts, ModelShape, TensorEntry};
use sift::ratio::Ratio;

#[test]
fn a_short_name_is_left_alone() {
    assert_eq!(truncate("Qwen3-9B-Q4_K_M.gguf", 44), "Qwen3-9B-Q4_K_M.gguf");
}

#[test]
fn a_long_name_keeps_its_end_because_that_is_the_quant() {
    let long = "lmstudio-community/Some-Very-Long-Vendor-Name/Model-Name-Q4_K_M.gguf";
    let t = truncate(long, 30);
    assert_eq!(t.chars().count(), 30);
    assert!(t.starts_with('…'));
    assert!(t.ends_with("Q4_K_M.gguf"));
}

#[test]
fn truncation_counts_characters_not_bytes() {
    let t = truncate("modèle-très-long-avec-des-accents-Q4_K_M.gguf", 20);
    assert_eq!(t.chars().count(), 20);
}

// What is proved of all inputs, on a few.

fn local(source: &'static str, name: &str) -> LocalModel {
    LocalModel { source, name: name.to_string(), path: "/p".to_string(), size_bytes: 1_000 }
}

#[test]
fn models_are_listed_by_library_and_name() {
    let found = discover(vec![
        local("colibri", "b"),
        local("sift", "a"),
        local("Ollama", "z"),
        local("colibri", "a"),
        local("LM Studio", "q"),
    ]);
    let order: Vec<(&str, &str)> = found.iter().map(|m| (m.source, m.name.as_str())).collect();
    assert_eq!(
        order,
        [("LM Studio", "q"), ("Ollama", "z"), ("colibri", "a"), ("colibri", "b"), ("sift", "a")]
    );
}

#[test]
fn three_tools_keep_a_directory_tree() {
    let dirs = libraries("/home/x");
    assert_eq!(dirs[0], ("LM Studio", "/home/x/.lmstudio/models".to_string()));
    assert_eq!(dirs[1], ("colibri", "/home/x/.colibri/models".to_string()));
    assert_eq!(dirs[2], ("sift", "/home/x/.sift/models".to_string()));
    assert_eq!(dirs.len(), 3);
}

#[test]
fn a_projector_is_not_a_model() {
    assert!(is_model_file("/m/a/model-Q4_K_M.gguf"));
    assert!(!is_model_file("/m/a/mmproj-model.gguf"));
    assert!(!is_model_file("/m/a/model.safetensors"));
    assert!(!is_model_file("/m/a/.gguf"));
    let m = model_file("sift", "/m", "/m/a/model.gguf", 7).expect("a model");
    assert_eq!(m.name, "a/model.gguf");
    assert_eq!(m.path, "/m/a/model.gguf");
    assert_eq!(m.size_bytes, 7);
    assert_eq!(
        model_file("sift", "/elsewhere", "/m/a/model.gguf", 7).unwrap().name,
        "/m/a/model.gguf"
    );
    assert!(model_file("sift", "/m", "/m/readme.md", 7).is_none());
}

#[test]
fn a_manifest_leads_to_its_weights() {
    let manifest = br#"{"layers":[
        {"mediaType":"application/vnd.ollama.image.template","digest":"sha256:aa"},
        {"mediaType":"application/vnd.ollama.image.model","digest":"sha256:1a2b"}]}"#;
    assert_eq!(read_manifest(manifest).as_deref(), Some("sha256-1a2b"));
    assert_eq!(read_manifest(br#"{"layers":[]}"#), None);
    assert_eq!(read_manifest(b"not JSON"), None);
    assert_eq!(blob_name("sha256:1a:2b"), "sha256-1a-2b");
}

fn parts(p: &[&str]) -> Vec<String> {
    p.iter().map(|s| s.to_string()).collect()
}

#[test]
fn a_manifest_is_named_by_the_end_of_its_path() {
    let path = parts(&["registry.ollama.ai", "library", "llama3", "latest"]);
    assert_eq!(manifest_name(&path).as_deref(), Some("llama3:latest"));
    assert_eq!(manifest_name(&parts(&["latest"])).as_deref(), Some("latest"));
    assert_eq!(manifest_name(&parts(&[])), None);
    let m = ollama_model(&path, "/b/sha256-1a".to_string(), 9).expect("a model");
    assert_eq!((m.source, m.name.as_str(), m.size_bytes), ("Ollama", "llama3:latest", 9));
}

#[test]
fn a_row_weighs_a_model_against_the_machine() {
    let entry = TensorEntry {
        name: "w".to_string(),
        n_elems: 2_000,
        dims: vec![2_000],
        size_bytes: 1_000,
    };
    let s = ModelShape::new(ArchFacts::default(), vec![entry], 1);
    let r = evaluate(local("sift", "m"), &s, 9_000, 10_000, 4096);
    assert_eq!(r.regime, Regime::Fits);
    assert_eq!(r.bytes_per_token, 1_000);
    assert_eq!(r.bits_per_weight, Some(Ratio { numer: 8_000, denom: 2_000 }));
    assert!(!r.is_moe);
    assert!(r.error.is_none());
    match r.est_tok_s {
        Estimate::TokensPerSec(t) => assert_eq!(t.numer * 10, 81 * t.denom),
        other => panic!("no estimate: {other:?}"),
    }
    let r = evaluate(local("sift", "m"), &s, 9_000, 10, 4096);
    assert_eq!((r.regime, r.est_tok_s), (Regime::Oversized, Estimate::DiskBound));
}

#[test]
fn an_unreadable_model_still_has_a_row() {
    let r = errored(local("sift", "m"), "broken".to_string());
    assert_eq!(r.error.as_deref(), Some("broken"));
    assert_eq!(r.model.name, "m");
    assert_eq!(r.bytes_per_token, 0);
}
