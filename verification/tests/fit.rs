//! Evaluating, ranking and recommending quantizations.

use sift::engine::{self, Format, Installed, Regime};
use sift::fit::{
    self, advise, by_size, estimate, evaluate, evaluate_one, evaluate_split, evaluate_whole,
    fits_word, format_of, incomplete_message, max_kv_bytes, merge_safetensors, narrow,
    needs_config, notes, paths_to_read, plan, recommended, shard_glob, work_list, workers, Advice,
    Candidate, Estimate, Work, DENSE_EFFICIENCY, MOE_EFFICIENCY,
};
use sift::hub::{group_shards, RepoFile};
use sift::json;
use sift::model::{ArchFacts, ModelShape, MoeShape, Safetensors, TensorEntry, TokenTraffic};
use sift::ratio::Ratio;

/// Hundredths or thousandths of a bit, as the exact quotient.
fn bits(numer: u128, denom: u128) -> Option<Ratio> {
    Some(Ratio { numer, denom })
}

fn candidate(label: &str, megabytes: u64, bpw: Option<Ratio>, regime: Regime) -> Candidate {
    let size_bytes = megabytes * 1_000_000;
    Candidate {
        label: label.to_string(),
        download_arg: format!("{label}.gguf"),
        size_bytes,
        traffic: TokenTraffic { expert_bytes: 0, trunk_bytes: size_bytes },
        regime,
        est_tok_s: Estimate::TokensPerSec(Ratio { numer: 10, denom: 1 }),
        is_moe: false,
        bits_per_weight: bpw,
        kv_bytes: 0,
        shard_count: 1,
        format: Format::Gguf,
    }
}

/// Pick by rank, and check that the recommendation is the same.
fn pick(cands: &[Candidate]) -> &Candidate {
    let by_rank = cands
        .iter()
        .filter(|c| c.regime != Regime::Oversized)
        .max_by_key(|c| c.rank())
        .expect("a candidate");
    let i = recommended(cands).expect("a recommendation");
    assert_eq!(cands[i].label, by_rank.label);
    by_rank
}

#[test]
fn a_three_bit_quant_that_is_tight_beats_a_one_bit_quant_that_fits() {
    let cands = vec![
        candidate("UD-IQ1_S", 9_040, bits(237, 100), Regime::Fits),
        candidate("Q2_K", 11_260, bits(295, 100), Regime::Tight),
        candidate("Q3_K_M", 14_710, bits(386, 100), Regime::Tight),
        candidate("Q4_K_M", 18_560, bits(487, 100), Regime::Oversized),
    ];
    assert_eq!(pick(&cands).label, "Q3_K_M");
}

#[test]
fn among_quants_that_all_clear_the_floor_the_safe_fit_wins_over_the_tight_one() {
    let cands = vec![
        candidate("Q3_K_M", 14_000, bits(386, 100), Regime::Fits),
        candidate("Q4_K_M", 18_000, bits(487, 100), Regime::Tight),
    ];
    assert_eq!(pick(&cands).label, "Q3_K_M");
}

#[test]
fn within_one_regime_more_bits_wins() {
    let cands = vec![
        candidate("Q4_K_M", 18_000, bits(487, 100), Regime::Fits),
        candidate("Q6_K", 25_000, bits(656, 100), Regime::Fits),
        candidate("Q3_K_M", 14_000, bits(386, 100), Regime::Fits),
    ];
    assert_eq!(pick(&cands).label, "Q6_K");
}

#[test]
fn bits_per_weight_decides_not_file_size() {
    let cands = vec![
        candidate("UD-Q2_K_XL", 12_000, bits(280, 100), Regime::Fits),
        candidate("Q3_K_S", 11_500, bits(341, 100), Regime::Fits),
    ];
    let best = pick(&cands);
    assert_eq!(best.label, "Q3_K_S");
    assert!(best.size_bytes < cands[0].size_bytes, "the smaller file won");
}

#[test]
fn when_nothing_clears_the_floor_the_best_available_is_still_named() {
    let cands = vec![
        candidate("IQ1_S", 6_000, bits(178, 100), Regime::Fits),
        candidate("IQ2_XXS", 8_000, bits(210, 100), Regime::Fits),
    ];
    let best = pick(&cands);
    assert_eq!(best.label, "IQ2_XXS");
    assert!(!best.meets_quality_floor(), "and it must be flagged as such");
}

#[test]
fn unknown_precision_is_not_treated_as_damaged() {
    let c = candidate("MYSTERY", 10_000, None, Regime::Fits);
    assert!(c.meets_quality_floor());
}

#[test]
fn the_floor_sits_exactly_at_three_bits() {
    assert!(candidate("x", 1_000, bits(3, 1), Regime::Fits).meets_quality_floor());
    assert!(!candidate("x", 1_000, bits(2999, 1000), Regime::Fits).meets_quality_floor());
}

#[test]
fn an_oversized_quant_is_never_recommended_however_good_it_is() {
    let cands = vec![
        candidate("Q3_K_M", 14_000, bits(386, 100), Regime::Fits),
        candidate("F16", 60_000, bits(16, 1), Regime::Oversized),
    ];
    assert_eq!(pick(&cands).label, "Q3_K_M");
}

fn labels(cands: &[Candidate]) -> Vec<&str> {
    cands.iter().map(|c| c.label.as_str()).collect()
}

fn three_quants() -> Vec<Candidate> {
    vec![
        candidate("Q4_K_M", 18_000, bits(48, 10), Regime::Fits),
        candidate("Q4_K_S", 17_000, bits(45, 10), Regime::Fits),
        candidate("Q8_0", 32_000, bits(85, 10), Regime::Oversized),
    ]
}

#[test]
fn an_exact_quant_narrows_to_that_one_file() {
    let kept = narrow(three_quants(), "Q4_K_M").unwrap();
    assert_eq!(labels(&kept), ["Q4_K_M"]);
}

#[test]
fn a_partial_quant_keeps_every_match_rather_than_guessing_one() {
    let kept = narrow(three_quants(), "q4").unwrap();
    assert_eq!(labels(&kept), ["Q4_K_M", "Q4_K_S"]);
}

#[test]
fn an_exact_match_beats_a_substring_that_would_also_match() {
    let cands = vec![
        candidate("UD-Q4_K_M", 19_000, bits(49, 10), Regime::Fits),
        candidate("Q4_K_M", 18_000, bits(48, 10), Regime::Fits),
    ];
    assert_eq!(labels(&narrow(cands, "Q4_K_M").unwrap()), ["Q4_K_M"]);
}

#[test]
fn an_unknown_quant_lists_what_the_repo_actually_has() {
    let err = narrow(three_quants(), "IQ2_XXS").unwrap_err();
    assert!(err.contains("IQ2_XXS"), "{err}");
    assert!(err.contains("Q4_K_M") && err.contains("Q8_0"), "{err}");
}

/// Read bandwidth on the calibration machine.
const MEASURED_READ_BYTES_PER_SEC: u64 = 135_400_000_000;

/// What is predicted for a model of `bytes_per_token` at that bandwidth.
fn predicted(bytes_per_token: u64, is_moe: bool) -> f64 {
    let traffic = TokenTraffic { expert_bytes: 0, trunk_bytes: bytes_per_token };
    match estimate(&traffic, is_moe, Regime::Fits, MEASURED_READ_BYTES_PER_SEC) {
        Estimate::TokensPerSec(r) => r.numer as f64 / r.denom as f64,
        other => panic!("no estimate: {other:?}"),
    }
}

#[test]
fn the_moe_factor_predicts_what_lm_studio_actually_did() {
    let predicted = predicted(798_615_552, true);
    let measured = 129.10;
    let error = (predicted - measured).abs() / measured;
    assert!(
        error < 0.05,
        "predicted {predicted:.1} tok/s against a measured {measured:.1}: {:.1}% out",
        error * 100.0
    );
}

#[test]
fn the_dense_factor_still_predicts_the_run_it_was_fitted_to() {
    let predicted = predicted(5_616_076_800, false);
    let error = (predicted - 21.07).abs() / 21.07;
    assert!(
        error < 0.05,
        "predicted {predicted:.2} tok/s against a measured 21.07: {:.1}% out",
        error * 100.0
    );
}

#[test]
fn moe_decode_is_not_assumed_to_be_a_fraction_of_dense() {
    assert!(
        MOE_EFFICIENCY * 10 > DENSE_EFFICIENCY * 7,
        "MoE efficiency is implausibly far below dense; the one measurement taken says MoE \
         reaches ~87% of it, not a third"
    );
    assert!(MOE_EFFICIENCY <= DENSE_EFFICIENCY, "scattered gather cannot beat streaming");
}

#[test]
fn neither_factor_claims_more_than_the_machine_has() {
    for f in [DENSE_EFFICIENCY, MOE_EFFICIENCY] {
        assert!(f > 0 && f <= 100, "efficiency {f}% is not a fraction");
    }
}

#[test]
fn a_split_model_downloads_every_part_not_just_the_first() {
    let g = shard_glob("Q4_K_M/Qwen3-235B-A22B-Q4_K_M.gguf");
    assert_eq!(g, "--include \"Q4_K_M/Qwen3-235B-A22B-Q4_K_M-*.gguf\"");
    assert!(g.contains('"'), "must be quoted against shell expansion");
}

#[test]
fn a_safetensors_set_keeps_its_own_extension() {
    assert_eq!(shard_glob("model.safetensors"), "--include \"model-*.safetensors\"");
}

#[test]
fn a_base_path_without_a_known_extension_still_yields_a_usable_pattern() {
    assert_eq!(shard_glob("Model-Q8_0"), "--include \"Model-Q8_0-*\"");
}

fn installed(ids: &[&str]) -> Vec<Installed> {
    engine::engines()
        .into_iter()
        .filter(|e| ids.contains(&e.id))
        .map(|e| Installed { engine: e, found_at: "/test".to_string() })
        .collect()
}

#[test]
fn a_safetensors_repo_is_not_routed_to_a_gguf_only_engine() {
    let installed = installed(&["lm-studio", "mlx"]);
    let rec = engine::route(4 << 30, Format::Safetensors, 12 << 30, &installed);
    let chosen = rec.engine.as_ref().expect("something must be recommended");
    assert!(
        chosen.formats.contains(&Format::Safetensors),
        "recommended {} which cannot read safetensors",
        chosen.name
    );
}

#[test]
fn format_comes_from_the_file_extension_not_the_repo() {
    assert_eq!(format_of("model-00001-of-00003.safetensors"), Format::Safetensors);
    assert_eq!(format_of("Q4_K_M/Model-Q4_K_M.gguf"), Format::Gguf);
    assert_eq!(format_of("model.bin"), Format::Gguf);
}

// What is proved of all inputs, on a few.

fn dense_shape(bytes: u64, elems: u64) -> ModelShape {
    let entry = TensorEntry {
        name: "w".to_string(),
        n_elems: elems,
        dims: vec![elems],
        size_bytes: bytes,
    };
    let facts = ArchFacts {
        block_count: Some(2),
        head_count: Some(4),
        embedding_length: Some(64),
        ..ArchFacts::default()
    };
    ModelShape::new(facts, vec![entry], 1)
}

#[test]
fn an_estimate_is_the_bandwidth_over_the_traffic() {
    let t = TokenTraffic { expert_bytes: 30, trunk_bytes: 70 };
    assert_eq!(
        estimate(&t, false, Regime::Fits, 1_000),
        Estimate::TokensPerSec(Ratio { numer: 1_000 * 1_000_000 * 90, denom: 100 * 1_000_000 * 100 })
    );
    assert_eq!(
        estimate(&t, true, Regime::Tight, 1_000),
        Estimate::TokensPerSec(Ratio { numer: 1_000 * 1_000_000 * 76, denom: 100 * 1_000_000 * 100 })
    );
    assert_eq!(estimate(&t, true, Regime::Oversized, 1_000), Estimate::DiskBound);
    let nothing = TokenTraffic { expert_bytes: 0, trunk_bytes: 0 };
    assert_eq!(estimate(&nothing, false, Regime::Fits, 1_000), Estimate::Unbounded);
}

#[test]
fn the_cache_counts_towards_what_has_to_fit() {
    // 2 blocks x 4 heads x 16 wide, keys and values at two bytes: 512 bytes a token.
    let s = dense_shape(1_000, 1_000);
    let empty = fit::build(
        "Q8_0".to_string(),
        "m.gguf".to_string(),
        1_000,
        &s,
        Format::Gguf,
        1_000,
        2_000,
        0,
    );
    assert_eq!(empty.kv_bytes, 0);
    assert_eq!(empty.regime, Regime::Fits);
    let long = fit::build(
        "Q8_0".to_string(),
        "m.gguf".to_string(),
        1_000,
        &s,
        Format::Gguf,
        1_000,
        2_000,
        4,
    );
    assert_eq!(long.kv_bytes, 2_048);
    assert_eq!(long.footprint_bytes(), 3_048);
    assert_eq!(long.regime, Regime::Oversized);
    assert_eq!(long.est_tok_s, Estimate::DiskBound);
    assert_eq!(long.bits_per_weight, bits(8_000, 1_000));
}

#[test]
fn a_split_model_scores_like_the_same_weights_in_one_file() {
    let s = dense_shape(60, 60);
    let whole = RepoFile { path: "M-Q8_0.gguf".to_string(), size: Some(60) };
    let one = evaluate_whole(&whole, &s, 1_000, 1_000, 0);
    let files = vec![
        RepoFile { path: "M-Q8_0-00001-of-00002.gguf".to_string(), size: Some(20) },
        RepoFile { path: "M-Q8_0-00002-of-00002.gguf".to_string(), size: Some(40) },
    ];
    let (_, sets) = group_shards(&files);
    let two = evaluate_split(&sets[0], &s, 1_000, 1_000, 0);
    assert_eq!(one.size_bytes, two.size_bytes);
    assert_eq!(one.regime, two.regime);
    assert_eq!(one.est_tok_s, two.est_tok_s);
    assert_eq!(one.label, two.label);
    assert_eq!(one.download_arg, "M-Q8_0.gguf");
    assert_eq!(two.download_arg, "--include \"M-Q8_0-*.gguf\"");
}

#[test]
fn an_incomplete_set_says_what_is_missing() {
    let files = vec![
        RepoFile { path: "M-Q8_0-00001-of-00002.gguf".to_string(), size: Some(20) },
    ];
    let (_, sets) = group_shards(&files);
    assert_eq!(
        incomplete_message(&sets[0]).expect("a reason"),
        "  skipped Q8_0: 1 of 2 shards present in the repo"
    );
    let files = vec![
        RepoFile { path: "M-Q8_0-00001-of-00002.gguf".to_string(), size: Some(20) },
        RepoFile { path: "M-Q8_0-00002-of-00002.gguf".to_string(), size: Some(20) },
    ];
    let (_, sets) = group_shards(&files);
    assert_eq!(incomplete_message(&sets[0]), None);
}

#[test]
fn only_safetensors_need_a_config() {
    let gguf = vec![RepoFile { path: "M-Q8_0.gguf".to_string(), size: None }];
    let st = vec![RepoFile { path: "model.safetensors".to_string(), size: None }];
    assert!(!needs_config(&gguf, &[]));
    assert!(needs_config(&st, &[]));
}

#[test]
fn planning_is_for_mixtures_of_experts() {
    let mut s = dense_shape(1_000, 1_000);
    assert_eq!(
        plan(&s).unwrap_err(),
        "this model has no stacked expert tensors; planning targets MoE models"
    );
    s.moe = Some(MoeShape {
        moe_layers: 2,
        experts_per_layer: 4,
        experts_per_token: 1,
        bytes_per_expert: 100,
    });
    let t = plan(&s).unwrap();
    assert_eq!(t.expert_bytes, 200);
    assert_eq!(t.trunk_bytes, 200);
    assert_eq!(t.total(), 400);
}

#[test]
fn what_is_recommended_comes_with_an_engine() {
    let cands = vec![
        candidate("Q3_K_M", 4_000, bits(386, 100), Regime::Fits),
        candidate("Q4_K_M", 5_000, bits(487, 100), Regime::Fits),
    ];
    match advise(&cands, 12 << 30, &installed(&["ollama"])) {
        Some(Advice::Use { index, rec }) => {
            assert_eq!(index, 1);
            assert_eq!(rec.engine.expect("an engine").id, "ollama");
            assert!(rec.installed);
        }
        other => panic!("something fits, and yet: {other:?}"),
    }
}

#[test]
fn candidates_are_listed_by_size() {
    let sorted = by_size(three_quants());
    assert_eq!(labels(&sorted), ["Q4_K_S", "Q4_K_M", "Q8_0"]);
}

#[test]
fn an_oversized_sweep_recommends_nothing_to_download() {
    let cands = vec![candidate("F16", 60_000, bits(16, 1), Regime::Oversized)];
    assert_eq!(recommended(&cands), None);
    match advise(&cands, 12 << 30, &installed(&["colibri"])) {
        Some(Advice::NothingFits { rec }) => {
            assert_eq!(rec.engine.expect("an engine that streams").id, "colibri");
        }
        other => panic!("nothing fits, and yet: {other:?}"),
    }
    assert_eq!(max_kv_bytes(&cands), 0);
    assert!(advise(&[], 12 << 30, &installed(&[])).is_none());
}

#[test]
fn words_and_workers() {
    assert_eq!(fits_word(Regime::Fits), "yes");
    assert_eq!(fits_word(Regime::Tight), "tight");
    assert_eq!(fits_word(Regime::Oversized), "no");
    assert_eq!(workers(1), 1);
    let mut c = candidate("IQ1_S", 6_000, bits(178, 100), Regime::Fits);
    assert_eq!(notes(&c), "dense, damaged");
    c.is_moe = true;
    c.shard_count = 3;
    c.bits_per_weight = None;
    c.kv_bytes = 7;
    assert_eq!(notes(&c), "moe, 3 parts");
    assert_eq!(max_kv_bytes(&[c]), 7);
}

fn tensors_of(bytes: u64) -> ModelShape {
    let t = TensorEntry {
        name: "w".to_string(),
        n_elems: bytes,
        size_bytes: bytes,
        dims: vec![bytes],
    };
    ModelShape::new(ArchFacts::default(), vec![t], 1)
}

fn repo_file(path: &str, size: Option<u64>) -> RepoFile {
    RepoFile { path: path.to_string(), size }
}

#[test]
fn a_sweep_keeps_what_was_read_and_names_what_was_not() {
    let files = vec![
        repo_file("m-Q8_0.gguf", Some(9_000)),
        repo_file("m-Q4_K_M.gguf", Some(5_000)),
        repo_file("m-Q6_K.gguf", None),
        repo_file("m-BF16-00001-of-00002.gguf", Some(7_000)),
    ];
    let (whole, sets) = group_shards(&files);
    let work = work_list(whole, sets);
    assert_eq!(work.len(), 4);
    assert_eq!(paths_to_read(&work[0]).expect("a path"), ["m-Q8_0.gguf"]);
    let missing = paths_to_read(&work[3]).expect_err("an incomplete set");
    assert_eq!(missing, "  skipped BF16: 1 of 2 shards present in the repo");
    let reads = vec![
        Ok(tensors_of(8_900)),
        Ok(tensors_of(4_900)),
        Err("no such file".to_string()),
        Ok(tensors_of(1)),
    ];
    let sweep = evaluate(&work, reads, 1_000_000, 1_000_000, 4096);
    assert_eq!(labels(&sweep.candidates), ["Q4_K_M", "Q8_0"]);
    assert_eq!(sweep.candidates[0].size_bytes, 5_000);
    assert_eq!(
        sweep.skipped,
        [
            "  skipped Q6_K: no such file",
            "  skipped BF16: 1 of 2 shards present in the repo",
        ]
    );
    // Nothing vanishes.
    assert_eq!(sweep.candidates.len() + sweep.skipped.len(), work.len());
}

#[test]
fn one_unit_of_work_is_a_row_or_a_reason() {
    let item = Work::Whole(repo_file("m-Q6_K.gguf", None));
    let c = evaluate_one(&item, Ok(tensors_of(4_000)), 1_000_000, 1_000_000, 4096)
        .expect("a row");
    assert_eq!(c.label, "Q6_K");
    // A repo that does not give a size is asked the tensors.
    assert_eq!(c.size_bytes, 4_000);
    assert_eq!(c.download_arg, "m-Q6_K.gguf");
    let e = evaluate_one(&item, Err("timeout".to_string()), 1, 1, 1).expect_err("a reason");
    assert_eq!(e, "  skipped Q6_K: timeout");
}

#[test]
fn safetensors_parts_are_put_together_in_order() {
    let part = |names: &[&str]| {
        let mut json = String::from("{");
        for (i, n) in names.iter().enumerate() {
            if i > 0 {
                json.push(',');
            }
            json.push_str(&format!(
                "\"{n}\":{{\"dtype\":\"BF16\",\"shape\":[4],\"data_offsets\":[{},{}]}}",
                8 * i,
                8 * i + 8
            ));
        }
        json.push('}');
        let mut bytes = (json.len() as u64).to_le_bytes().to_vec();
        bytes.extend_from_slice(json.as_bytes());
        Safetensors::parse(&bytes).expect("a header")
    };
    let config = json::parse(br#"{"num_hidden_layers": 2, "num_key_value_heads": 4}"#)
        .expect("JSON");
    let s = merge_safetensors(vec![part(&["a", "b"]), part(&["c"])], Some(&config));
    let names: Vec<&str> = s.tensors.iter().map(|t| t.name.as_str()).collect();
    assert_eq!(names, ["a", "b", "c"]);
    assert_eq!(s.shard_count, 2);
    assert_eq!(s.total_tensor_bytes(), 24);
    assert!(s.moe.is_none());
    let bare = merge_safetensors(vec![part(&["a"])], None);
    assert_eq!(bare.shard_count, 1);
    assert!(bare.facts.block_count.is_none());
}

#[test]
fn a_part_that_is_there_twice_does_not_make_up_for_a_missing_one() {
    let files = vec![
        repo_file("M-Q8_0-00001-of-00002.gguf", Some(20)),
        repo_file("M-Q8_0-1-of-2.gguf", Some(20)),
    ];
    let (whole, sets) = group_shards(&files);
    let work = work_list(whole, sets);
    assert_eq!(
        paths_to_read(&work[0]).expect_err("an incomplete set"),
        "  skipped Q8_0: 1 of 2 shards present in the repo"
    );
}

#[test]
fn a_set_with_parts_to_spare_is_skipped_with_the_files_it_has() {
    let files = vec![
        repo_file("M-Q8_0-1-of-1.gguf", Some(10)),
        repo_file("M-Q8_0-00001-of-00001.gguf", Some(10)),
    ];
    let (whole, sets) = group_shards(&files);
    let work = work_list(whole, sets);
    assert_eq!(
        paths_to_read(&work[0]).expect_err("an incomplete set"),
        "  skipped Q8_0: 2 of 1 shards present in the repo"
    );
    // Where parts are missing, every file there is counts, as it is listed.
    let files = vec![
        repo_file("M-Q8_0-1-of-3.gguf", Some(10)),
        repo_file("M-Q8_0-00001-of-00003.gguf", Some(10)),
    ];
    let (whole, sets) = group_shards(&files);
    let work = work_list(whole, sets);
    assert_eq!(
        paths_to_read(&work[0]).expect_err("an incomplete set"),
        "  skipped Q8_0: 2 of 3 shards present in the repo"
    );
}
