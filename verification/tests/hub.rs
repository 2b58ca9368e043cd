//! Listings of a repo, and the split models in them.

use sift::hub::{
    describe_curl_failure, fetch_config, group_shards, is_quant_tag, list_weights, listing_url,
    sets_are_summable, shard_position, weights_from, HubError, RepoFile,
};
use sift::json;

fn f(path: &str) -> RepoFile {
    RepoFile { path: path.to_string(), size: Some(1) }
}

#[test]
fn common_quant_labels_are_recovered() {
    assert_eq!(f("Qwen3-30B-A3B-Q4_K_M.gguf").quant_label(), "Q4_K_M");
    assert_eq!(f("Qwen3-30B-A3B-IQ4_XS.gguf").quant_label(), "IQ4_XS");
    assert_eq!(f("Qwen3-30B-A3B-Q2_K.gguf").quant_label(), "Q2_K");
}

#[test]
fn multi_part_unsloth_labels_survive() {
    assert_eq!(f("Qwen3-30B-A3B-UD-Q2_K_XL.gguf").quant_label(), "UD-Q2_K_XL");
}

#[test]
fn a_directory_prefix_is_ignored() {
    assert_eq!(f("BF16/Qwen3-30B-A3B-BF16.gguf").quant_label(), "BF16");
}

#[test]
fn lowercase_names_are_recognised_and_normalised() {
    assert_eq!(f("olmoe-1b-7b-0924-instruct-q4_k_m.gguf").quant_label(), "Q4_K_M");
}

#[test]
fn model_size_parts_are_not_mistaken_for_quant_tags() {
    assert!(!is_quant_tag("30B"));
    assert!(!is_quant_tag("A3B"));
    assert!(!is_quant_tag("Instruct"));
    assert!(is_quant_tag("Q4_K_M"));
    assert!(is_quant_tag("IQ2_XXS"));
    assert!(is_quant_tag("BF16"));
    assert!(is_quant_tag("UD"));
    assert!(is_quant_tag("MXFP4"));
}

#[test]
fn a_name_with_no_recognisable_tag_falls_back_to_the_stem() {
    assert_eq!(f("some-random-model.gguf").quant_label(), "some-random-model");
}

#[test]
fn split_shards_are_identifiable() {
    assert!(f("Qwen3-30B-A3B-BF16-00001-of-00002.gguf").is_shard());
    assert!(!f("Qwen3-30B-A3B-Q4_K_M.gguf").is_shard());
}

fn sized(path: &str, size: u64) -> RepoFile {
    RepoFile { path: path.to_string(), size: Some(size) }
}

#[test]
fn a_split_set_is_recognised_and_ordered() {
    let (base, i, n) = shard_position("Qwen3-235B-Q4_K_M-00002-of-00003.gguf").unwrap();
    assert_eq!(base, "Qwen3-235B-Q4_K_M.gguf");
    assert_eq!((i, n), (2, 3));
}

#[test]
fn a_model_whose_name_contains_of_is_not_a_shard() {
    assert!(shard_position("Mixture-of-Experts-Q4_K_M.gguf").is_none());
    assert!(!sized("Mixture-of-Experts-Q4_K_M.gguf", 1).is_shard());
    assert!(sized("M-Q4_K_M-00001-of-00002.gguf", 1).is_shard());
}

#[test]
fn shards_are_grouped_and_their_sizes_summed() {
    let files = vec![
        sized("M-Q4_K_M-00002-of-00003.gguf", 20),
        sized("M-Q8_0.gguf", 99),
        sized("M-Q4_K_M-00001-of-00003.gguf", 10),
        sized("M-Q4_K_M-00003-of-00003.gguf", 30),
    ];
    let (whole, sets) = group_shards(&files);

    assert_eq!(whole.len(), 1);
    assert_eq!(whole[0].path, "M-Q8_0.gguf");

    assert_eq!(sets.len(), 1);
    let s = &sets[0];
    assert_eq!(s.size(), Some(60), "the model is the sum of its parts");
    assert!(s.is_complete());
    assert_eq!(s.base.quant_label(), "Q4_K_M");
    let order: Vec<&str> = s.parts.iter().map(|p| p.path.as_str()).collect();
    assert_eq!(order[0], "M-Q4_K_M-00001-of-00003.gguf");
    assert_eq!(order[2], "M-Q4_K_M-00003-of-00003.gguf");
}

#[test]
fn an_incomplete_set_is_flagged_rather_than_silently_summed() {
    let files = vec![
        sized("M-Q4_K_M-00001-of-00003.gguf", 10),
        sized("M-Q4_K_M-00002-of-00003.gguf", 20),
    ];
    let (_, sets) = group_shards(&files);
    assert!(!sets[0].is_complete());
    assert_eq!(sets[0].expected, 3);
    assert_eq!(sets[0].parts.len(), 2);
}

#[test]
fn two_quantizations_split_separately_stay_separate() {
    let files = vec![
        sized("M-Q4_K_M-00001-of-00002.gguf", 10),
        sized("M-Q4_K_M-00002-of-00002.gguf", 10),
        sized("M-Q8_0-00001-of-00002.gguf", 40),
        sized("M-Q8_0-00002-of-00002.gguf", 40),
    ];
    let (whole, sets) = group_shards(&files);
    assert!(whole.is_empty());
    assert_eq!(sets.len(), 2);
    let labels: Vec<String> = sets.iter().map(|s| s.base.quant_label()).collect();
    assert!(labels.contains(&"Q4_K_M".to_string()));
    assert!(labels.contains(&"Q8_0".to_string()));
}

#[test]
fn a_size_the_api_did_not_report_makes_the_total_unknown_not_wrong() {
    let files = vec![
        sized("M-Q4_K_M-00001-of-00002.gguf", 10),
        RepoFile { path: "M-Q4_K_M-00002-of-00002.gguf".to_string(), size: None },
    ];
    let (_, sets) = group_shards(&files);
    assert_eq!(sets[0].size(), None, "a partial sum would understate it");
}

#[test]
fn nonsense_shard_numbering_is_not_treated_as_a_split() {
    assert!(shard_position("M-Q4_K_M-00000-of-00003.gguf").is_none());
    assert!(shard_position("M-Q4_K_M-00004-of-00003.gguf").is_none());
    assert!(shard_position("M-Q4_K_M-000x-of-00003.gguf").is_none());
    assert!(shard_position("M-Q4_K_M-00001-of-.gguf").is_none());
}

#[test]
fn a_401_from_the_hub_is_explained_as_a_missing_or_gated_repo() {
    let msg = describe_curl_failure("curl: (22) The requested URL returned error: 401");
    assert!(msg.contains("no such repo"), "{msg}");
    assert!(msg.contains("gated"), "{msg}");
    assert!(msg.contains("401"), "{msg}");
}

#[test]
fn a_404_gets_the_same_explanation() {
    let msg = describe_curl_failure("curl: (56) The requested URL returned error: 404\n");
    assert!(msg.contains("no such repo"), "{msg}");
    assert!(msg.contains("404"), "{msg}");
}

#[test]
fn other_http_statuses_are_reported_as_such() {
    let msg = describe_curl_failure("curl: (22) The requested URL returned error: 503");
    assert_eq!(msg, "HuggingFace answered HTTP 503");
}

#[test]
fn a_non_http_failure_keeps_curls_own_words() {
    let msg = describe_curl_failure("curl: (6) Could not resolve host: huggingface.co\n");
    assert_eq!(msg, "curl: (6) Could not resolve host: huggingface.co");
}

#[test]
fn silence_from_curl_still_yields_a_sentence() {
    assert!(describe_curl_failure("   ").contains("no such repo"));
}

// What is proved of all inputs, on a few.

#[test]
fn a_split_name_is_recognised_whatever_the_model_is_called() {
    for base in ["M", "Mixture-of-Experts", "a-00001-of-00002", ""] {
        let (b, i, n) = shard_position(&format!("{base}-00007-of-00010.gguf")).unwrap();
        assert_eq!(b, format!("{base}.gguf"));
        assert_eq!((i, n), (7, 10));
    }
}

#[test]
fn a_listing_keeps_its_weights_in_order() {
    let listing = br#"{"siblings":[
        {"rfilename":"README.md","size":3},
        {"rfilename":"M-Q8_0.gguf","size":20},
        {"rfilename":"M-Q2_K.gguf","size":10},
        {"rfilename":"model.safetensors"}]}"#;
    let files = list_weights("org/repo", true, listing, b"").expect("a listing");
    let names: Vec<&str> = files.iter().map(|f| f.path.as_str()).collect();
    assert_eq!(names, ["model.safetensors", "M-Q2_K.gguf", "M-Q8_0.gguf"]);
    let parsed = json::parse(listing).expect("JSON");
    let again = weights_from("org/repo", &parsed).expect("a listing");
    assert_eq!(again.len(), files.len());
}

#[test]
fn a_repo_without_weights_is_an_error() {
    let listing = br#"{"siblings":[{"rfilename":"README.md"}]}"#;
    match list_weights("org/repo", true, listing, b"") {
        Err(e @ HubError::NoWeights(_)) => {
            assert_eq!(e.message(), "`org/repo` has no .gguf or .safetensors files");
        },
        other => panic!("expected NoWeights, got {other:?}"),
    }
}

#[test]
fn an_answer_that_is_no_json_is_an_error() {
    match list_weights("org/repo", true, b"<html>", b"") {
        Err(e @ HubError::Parse { .. }) => {
            let msg = e.message();
            assert!(msg.starts_with("could not parse the hub response for `org/repo`: "), "{msg}");
        }
        other => panic!("expected Parse, got {other:?}"),
    }
}

#[test]
fn a_failed_request_is_explained() {
    match list_weights("org/repo", false, b"", b"curl: (22) The requested URL returned error: 503") {
        Err(e @ HubError::Request { .. }) => {
            assert!(e.message().contains("HuggingFace answered HTTP 503"), "{}", e.message());
        }
        other => panic!("expected Request, got {other:?}"),
    }
}

#[test]
fn curls_words_are_read_even_where_they_are_no_utf8() {
    let e = list_weights("org/repo", false, b"", b"curl: broken \xFF pipe").unwrap_err();
    assert!(e.message().contains("curl: broken \u{FFFD} pipe"), "{}", e.message());
}

#[test]
fn a_config_is_read_with_its_size() {
    let (config, bytes) = fetch_config(true, br#"{"hidden_size":64}"#).expect("a config");
    assert_eq!(config.get_u64("hidden_size"), Some(64));
    assert_eq!(bytes, 18);
    assert!(fetch_config(false, br#"{"hidden_size":64}"#).is_none());
    assert!(fetch_config(true, b"not JSON").is_none());
}

#[test]
fn a_listing_is_asked_for_with_sizes() {
    assert_eq!(listing_url("org/repo"), "https://huggingface.co/api/models/org/repo?blobs=true");
}

#[test]
fn sums_that_overflow_are_noticed() {
    let files = vec![
        sized("M-Q4_K_M-00001-of-00002.gguf", u64::MAX),
        sized("M-Q4_K_M-00002-of-00002.gguf", 1),
    ];
    assert!(!sets_are_summable(&files));
    assert!(sets_are_summable(&files[..1]));
}

#[test]
fn a_set_with_one_part_twice_is_not_complete() {
    let files = vec![f("M-00001-of-00002.gguf"), f("M-1-of-2.gguf")];
    let (_, sets) = group_shards(&files);
    assert_eq!(sets.len(), 1);
    assert_eq!(sets[0].parts.len(), 2);
    assert!(!sets[0].is_complete(), "part 2 is promised and absent");
    assert_eq!(sets[0].present(), 1);
}

#[test]
fn only_digits_number_a_shard() {
    assert_eq!(shard_position("M-+1-of-2.gguf"), None);
    assert_eq!(shard_position("M-1-of-+2.gguf"), None);
    assert_eq!(shard_position("M--of-2.gguf"), None);
    assert_eq!(shard_position("M-1-of-2.gguf"), Some(("M.gguf".to_string(), 1, 2)));
}

#[test]
fn grouping_keeps_every_file_once() {
    let files = vec![
        f("B-00002-of-00002.gguf"),
        f("whole.gguf"),
        f("A-1-of-1.gguf"),
        f("B-00001-of-00002.gguf"),
        f("whole.gguf"),
    ];
    let (whole, sets) = group_shards(&files);
    let mut after: Vec<String> = whole.iter().map(|f| f.path.clone()).collect();
    for s in &sets {
        after.extend(s.parts.iter().map(|f| f.path.clone()));
    }
    let mut before: Vec<String> = files.iter().map(|f| f.path.clone()).collect();
    before.sort();
    after.sort();
    assert_eq!(before, after);
}

#[test]
fn a_set_with_parts_to_spare_is_not_complete() {
    let files = vec![sized("M-1-of-1.gguf", 10), sized("M-00001-of-00001.gguf", 10)];
    let (_, sets) = group_shards(&files);
    assert_eq!((sets.len(), sets[0].parts.len(), sets[0].expected), (1, 2, 1));
    assert!(!sets[0].is_complete(), "its sum counts the model twice");
    assert_eq!(sets[0].told(), 2);

    // Two splits of one model under one name.
    let files = vec![f("M-1-of-1.gguf"), f("M-1-of-2.gguf"), f("M-2-of-2.gguf")];
    let (_, sets) = group_shards(&files);
    assert!(!sets[0].is_complete());
    assert_eq!(sets[0].told(), 3);
}
