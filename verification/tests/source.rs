//! Resolving what a user named.

use sift::engine::Format;
use sift::hub::RepoFile;
use sift::source::{from_listing, looks_like_path, pick, split_quant, Resolution, Source};

fn f(path: &str, size: u64) -> RepoFile {
    RepoFile { path: path.to_string(), size: Some(size) }
}

#[test]
fn an_explicit_quant_is_honoured() {
    let files = vec![f("M-Q2_K.gguf", 10), f("M-Q4_K_M.gguf", 20)];
    assert_eq!(pick(&files, Some("Q4_K_M")).unwrap().path, "M-Q4_K_M.gguf");
}

#[test]
fn a_partial_quant_matches_by_substring() {
    let files = vec![f("M-Q2_K.gguf", 10), f("M-Q4_K_M.gguf", 20)];
    assert_eq!(pick(&files, Some("Q4")).unwrap().path, "M-Q4_K_M.gguf");
}

#[test]
fn quant_matching_is_case_insensitive() {
    let files = vec![f("M-Q4_K_M.gguf", 20)];
    assert_eq!(pick(&files, Some("q4_k_m")).unwrap().path, "M-Q4_K_M.gguf");
}

#[test]
fn shards_are_never_chosen() {
    let files = vec![f("M-BF16-00001-of-00002.gguf", 100), f("M-Q4_K_M.gguf", 20)];
    assert_eq!(pick(&files, None).unwrap().path, "M-Q4_K_M.gguf");
}

#[test]
fn a_repo_of_only_shards_is_an_error_not_a_silent_wrong_answer() {
    let files = vec![f("M-BF16-00001-of-00002.gguf", 100)];
    assert!(pick(&files, None).is_err());
}

#[test]
fn an_unknown_quant_lists_what_was_available() {
    let files = vec![f("M-Q2_K.gguf", 10)];
    let err = pick(&files, Some("Q8_0")).unwrap_err();
    assert!(err.contains("Q8_0"), "the error should name what was asked for: {err}");
    let err = from_listing("org/repo", &files, Some("Q8_0")).unwrap_err();
    assert_eq!(err.context, "choosing a file from `org/repo`. Available: Q2_K");
    assert_eq!(err.cause, "no file matching quantization `Q8_0`");
}

fn refused(reference: &str) -> String {
    match Source::resolve(reference, None, false) {
        Resolution::Refused(why) => why,
        other => panic!("{reference} was not refused: {other:?}"),
    }
}

#[test]
fn a_bare_word_is_rejected_with_guidance_rather_than_a_network_call() {
    let err = refused("qwen3");
    assert!(err.contains("org/repo"), "should explain the expected form: {err}");
}

#[test]
fn urls_are_passed_through() {
    match Source::resolve("https://example.com/a/model.gguf", None, false) {
        Resolution::Done(s) => assert_eq!(s.label(), "model.gguf"),
        other => panic!("not resolved: {other:?}"),
    }
}

#[test]
fn a_missing_path_is_reported_as_missing_not_asked_of_the_hub() {
    for reference in [
        "/nonexistent/model.gguf",
        "./missing.gguf",
        "../missing/model.safetensors",
        "~/models/missing.gguf",
        "models/missing.gguf",
        "org/repo.safetensors",
        "C:\\models\\missing.gguf",
    ] {
        let err = refused(reference);
        assert!(
            err.contains("no such file"),
            "{reference} should be treated as a path: {err}"
        );
    }
}

#[test]
fn a_repo_reference_is_not_mistaken_for_a_path() {
    assert!(!looks_like_path("unsloth/Qwen3-30B-A3B-GGUF"));
    assert!(!looks_like_path("unsloth/Qwen3-30B-A3B-GGUF:Q4_K_M"));
    assert!(!looks_like_path("Qwen/Qwen2.5-0.5B-Instruct"));
}

fn split(reference: &str) -> (String, Option<String>) {
    split_quant(reference)
}

#[test]
fn an_inline_quant_is_split_off_the_repo() {
    assert_eq!(
        split("unsloth/Qwen3-30B-A3B-GGUF:Q4_K_M"),
        ("unsloth/Qwen3-30B-A3B-GGUF".to_string(), Some("Q4_K_M".to_string()))
    );
    assert_eq!(
        split("unsloth/Qwen3-30B-A3B-GGUF"),
        ("unsloth/Qwen3-30B-A3B-GGUF".to_string(), None)
    );
}

#[test]
fn a_colon_followed_by_a_slash_is_not_a_quant() {
    assert_eq!(
        split("https://example.com/a/b"),
        ("https://example.com/a/b".to_string(), None)
    );
    assert_eq!(split("org/repo:"), ("org/repo:".to_string(), None));
}

// What is proved of all inputs, on a few.

#[test]
fn an_existing_path_wins() {
    assert_eq!(
        Source::resolve("https://example.com/x", Some("Q8_0"), true),
        Resolution::Done(Source::Local("https://example.com/x".to_string()))
    );
}

#[test]
fn a_repo_has_to_be_listed_first() {
    assert_eq!(
        Source::resolve("org/repo:Q4_K_M", None, false),
        Resolution::List { repo: "org/repo".to_string(), wanted: Some("Q4_K_M".to_string()) }
    );
    assert_eq!(
        Source::resolve("org/repo:Q4_K_M", Some("Q8_0"), false),
        Resolution::List { repo: "org/repo".to_string(), wanted: Some("Q8_0".to_string()) }
    );
}

#[test]
fn a_file_of_a_listing_becomes_a_url() {
    let files = vec![f("M-Q2_K.gguf", 10), f("M-Q4_K_M.gguf", 20)];
    assert_eq!(
        from_listing("org/repo", &files, None).unwrap(),
        Source::Remote {
            url: "https://huggingface.co/org/repo/resolve/main/M-Q4_K_M.gguf".to_string(),
            label: "org/repo:Q4_K_M".to_string(),
            repo: Some("org/repo".to_string()),
        }
    );
}

#[test]
fn a_format_is_read_off_the_name() {
    let url = "https://cdn/model.safetensors?sig=1".to_string();
    let remote = Source::Remote { url, label: "x".to_string(), repo: None };
    assert_eq!(remote.format(), Format::Safetensors);
    assert_eq!(Source::Local("a/m.gguf".to_string()).format(), Format::Gguf);
    assert_eq!(Source::Local("a/m.gguf".to_string()).label(), "a/m.gguf");
}

#[test]
fn a_label_that_is_a_stem_is_matched_in_either_case() {
    let files = vec![f("model.gguf", 5), f("Other-Thing.gguf", 9)];
    assert_eq!(pick(&files, Some("model")).unwrap().path, "model.gguf");
    assert_eq!(pick(&files, Some("MODEL")).unwrap().path, "model.gguf");
    assert_eq!(pick(&files, Some("thing")).unwrap().path, "Other-Thing.gguf");
    assert!(pick(&files, Some("absent")).is_err());
}
