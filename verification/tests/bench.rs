//! Measured engines.

use sift::bench::lmstudio;
use sift::bench::ollama;
use sift::bench::{
    choose_model, endpoint, log_path, median_tps, resolve, Rate, Run, Session, Target,
};
use sift::calibrate::{lms_missing, lms_path, models, selected_runtimes, ModelFile, Regime};
use sift::json;
use sift::ratio::Ratio;

const GIB: u64 = 1 << 30;

/// A run of 100 tokens at the given rate.
fn run(tps: u64) -> Run {
    Run {
        engine: "test",
        model: "m".to_string(),
        completion_tokens: 100,
        prompt_tokens: 10,
        nanos: 100 * 1_000_000_000 / tps,
        engine_timed: true,
    }
}

fn tps(rate: Option<Rate>) -> Option<f64> {
    match rate {
        Some(Rate::PerSec(r)) => {
            let v = r.numer as f64 / r.denom as f64;
            Some((v * 1e4).round() / 1e4)
        }
        Some(Rate::Unbounded) => Some(f64::INFINITY),
        None => None,
    }
}

#[test]
fn mod_median_of_an_odd_count_is_the_middle_value() {
    let runs = vec![run(10), run(30), run(20)];
    assert_eq!(tps(median_tps(&runs)), Some(20.0));
}

#[test]
fn mod_median_of_an_even_count_averages_the_middle_pair() {
    let runs = vec![run(10), run(20), run(30), run(40)];
    assert_eq!(tps(median_tps(&runs)), Some(25.0));
}

#[test]
fn mod_a_single_outlier_does_not_move_the_median() {
    let clean = vec![run(50), run(51), run(52)];
    let stalled = vec![run(50), run(51), run(2)];
    assert_eq!(tps(median_tps(&clean)), Some(51.0));
    assert_eq!(tps(median_tps(&stalled)), Some(50.0));
}

#[test]
fn mod_no_runs_yields_no_median_rather_than_zero() {
    assert_eq!(median_tps(&vec![]), None);
}

/// A run that LM Studio reported.
fn lms_run(tps: u64) -> Run {
    let reply = json::parse(
        br#"{"model":"m","usage":{"completion_tokens":100,"prompt_tokens":10}}"#,
    )
    .expect("JSON");
    lmstudio::run_from(&reply, None, "m", 100 * 1_000_000_000 / tps).expect("a run")
}

#[test]
fn lmstudio_median_of_an_odd_count_is_the_middle_value() {
    let runs = vec![lms_run(10), lms_run(30), lms_run(20)];
    assert_eq!(tps(median_tps(&runs)), Some(20.0));
}

#[test]
fn lmstudio_median_of_an_even_count_averages_the_middle_pair() {
    let runs = vec![lms_run(10), lms_run(20), lms_run(30), lms_run(40)];
    assert_eq!(tps(median_tps(&runs)), Some(25.0));
}

#[test]
fn lmstudio_a_single_outlier_does_not_move_the_median() {
    let clean = vec![lms_run(50), lms_run(51), lms_run(52)];
    let stalled = vec![lms_run(50), lms_run(51), lms_run(2)];
    assert_eq!(tps(median_tps(&clean)), Some(51.0));
    assert_eq!(tps(median_tps(&stalled)), Some(50.0));
}

#[test]
fn lmstudio_no_runs_yields_no_median_rather_than_zero() {
    assert_eq!(median_tps(&Vec::new()), None);
}

#[test]
fn an_explicit_engine_is_honoured_without_probing() {
    for (lms, oll) in [(false, false), (true, false), (false, true), (true, true)] {
        assert_eq!(resolve(Target::Ollama, lms, oll, 1, 2).expect("explicit"), Target::Ollama);
        assert_eq!(
            resolve(Target::LmStudio, lms, oll, 1, 2).expect("explicit"),
            Target::LmStudio
        );
    }
}

#[test]
fn auto_with_nothing_serving_explains_how_to_start_one() {
    let msg = resolve(Target::Auto, false, false, 1, 2).expect_err("nothing is serving");
    assert!(msg.contains("lms server start"), "{msg}");
    assert!(msg.contains("ollama serve"), "{msg}");
}

#[test]
fn main_regimes_split_at_the_documented_boundaries() {
    let ram = 12 * GIB;
    assert_eq!(Regime::classify(5 * GIB, ram), Regime::A);
    assert_eq!(Regime::classify(11 * GIB, ram), Regime::B);
    assert_eq!(Regime::classify(60 * GIB, ram), Regime::C);
}

#[test]
fn classification_never_divides_by_zero() {
    assert_eq!(Regime::classify(1, 0), Regime::C);
}

// What is proved of all inputs, on a few.

#[test]
fn auto_takes_the_one_that_serves_and_refuses_to_choose() {
    assert_eq!(resolve(Target::Auto, true, false, 1, 2), Ok(Target::LmStudio));
    assert_eq!(resolve(Target::Auto, false, true, 1, 2), Ok(Target::Ollama));
    let both = resolve(Target::Auto, true, true, 1234, 11434).unwrap_err();
    assert!(
        both.starts_with("both LM Studio (:1234) and Ollama (:11434) are serving."),
        "{both}"
    );
}

#[test]
fn a_session_warms_up_and_keeps_every_run() {
    let mut s = Session::new(128, 2);
    assert_eq!(s.next_limit(), Some(8));
    assert_eq!(s.context(), "warm-up request failed");
    s.absorb(run(1));
    assert_eq!(s.next_limit(), Some(128));
    assert_eq!(s.context(), "run 1 of 2");
    s.absorb(run(10));
    assert_eq!(s.next_limit(), Some(128));
    assert_eq!(s.context(), "run 2 of 2");
    s.absorb(run(20));
    assert_eq!(s.next_limit(), None);
    let runs = s.finish();
    assert_eq!(runs.len(), 2);
    assert_eq!(runs[0].nanos, run(10).nanos);
    assert_eq!(runs[1].nanos, run(20).nanos);
    assert_eq!(Session::new(3, 1).next_limit(), Some(3));
}

#[test]
fn a_rate_is_tokens_over_time() {
    assert_eq!(
        run(50).tokens_per_sec(),
        Rate::PerSec(Ratio { numer: 100_000_000_000, denom: 2_000_000_000 })
    );
    let mut instant = run(50);
    instant.nanos = 0;
    assert_eq!(instant.tokens_per_sec(), Rate::Unbounded);
    assert_eq!(median_tps(&vec![instant]), Some(Rate::Unbounded));
}

#[test]
fn lm_studio_is_asked_for_a_fixed_workload() {
    assert_eq!(
        lmstudio::request_body("m", "say \"hi\"", 128),
        r#"{"max_tokens":128,"messages":[{"content":"say \"hi\"","role":"user"}],"model":"m","stream":false,"temperature":0.0}"#
    );
    assert_eq!(
        lmstudio::completions_url(1234),
        "http://127.0.0.1:1234/v1/chat/completions"
    );
    assert_eq!(lmstudio::models_url(lmstudio::DEFAULT_PORT), "http://127.0.0.1:1234/v1/models");
}

#[test]
fn ollama_is_asked_for_the_same_workload() {
    assert_eq!(
        ollama::request_body("m", "hi", 128),
        r#"{"model":"m","options":{"num_predict":128,"temperature":0.0},"prompt":"hi","stream":false}"#
    );
    assert_eq!(ollama::generate_url(11434), "http://127.0.0.1:11434/api/generate");
    assert_eq!(ollama::tags_url(ollama::DEFAULT_PORT), "http://127.0.0.1:11434/api/tags");
}

#[test]
fn an_lm_studio_reply_is_timed_by_the_clock() {
    let reply = br#"{"model":"real","usage":{"completion_tokens":64,"prompt_tokens":9}}"#;
    let r = lmstudio::measure_once("asked", true, reply, b"", 2_000).expect("a run");
    assert_eq!(r.engine, "lm-studio");
    assert_eq!(r.model, "real");
    assert_eq!((r.completion_tokens, r.prompt_tokens), (64, 9));
    assert_eq!((r.nanos, r.engine_timed), (2_000, false));
    let reply = br#"{"usage":{"completion_tokens":64}}"#;
    let r = lmstudio::measure_once("asked", true, reply, b"", 2_000).expect("a run");
    assert_eq!((r.model.as_str(), r.prompt_tokens), ("asked", 0));
}

#[test]
fn lm_studio_failures_say_what_happened() {
    let e = lmstudio::measure_once("m", false, b"", b"curl: down", 1).unwrap_err();
    assert_eq!(e.message, "completion request failed: curl: down");
    let e = lmstudio::measure_once("m", true, b"<html>", b"", 1).unwrap_err();
    assert_eq!(e.message, "parsing completion response");
    assert!(e.cause.is_some());
    let e = lmstudio::measure_once("m", true, br#"{"error":{"code":1.5,"m":["x",null]}}"#, b"", 1)
        .unwrap_err();
    assert_eq!(e.message, r#"server returned an error: {"code":1.5,"m":["x",null]}"#);
    let e = lmstudio::measure_once("m", true, b"{}", b"", 1).unwrap_err();
    assert_eq!(e.message, "server reported zero completion tokens; nothing was measured");
    let wrapped = br#"{"usage":{"completion_tokens":4294967296}}"#;
    assert!(lmstudio::measure_once("m", true, wrapped, b"", 1).is_err());
}

#[test]
fn an_ollama_reply_is_timed_by_the_engine_where_it_can_be() {
    let reply = br#"{"model":"real","eval_count":50,"prompt_eval_count":7,"eval_duration":900}"#;
    let r = ollama::measure_once("asked", true, reply, b"", 2_000).expect("a run");
    assert_eq!(r.engine, "ollama");
    assert_eq!((r.nanos, r.engine_timed), (900, true));
    assert_eq!((r.completion_tokens, r.prompt_tokens), (50, 7));
    let reply = br#"{"eval_count":50,"eval_duration":0}"#;
    let r = ollama::measure_once("asked", true, reply, b"", 2_000).expect("a run");
    assert_eq!((r.nanos, r.engine_timed), (2_000, false));
    assert_eq!(r.model, "asked");
}

#[test]
fn ollama_failures_say_what_happened() {
    let e = ollama::measure_once("m", false, b"", b"curl: down", 1).unwrap_err();
    assert_eq!(e.message, "generate request failed: curl: down");
    let e = ollama::measure_once("m", true, b"", b"", 1).unwrap_err();
    assert_eq!(e.message, "parsing generate response");
    let e = ollama::measure_once("m", true, br#"{"error":"no such model"}"#, b"", 1).unwrap_err();
    assert_eq!(e.message, "Ollama returned an error: \"no such model\"");
    let e = ollama::measure_once("m", true, b"{}", b"", 1).unwrap_err();
    assert_eq!(e.message, "Ollama reported zero eval tokens; nothing was measured");
}

#[test]
fn models_are_listed_by_the_servers() {
    let reply = br#"{"data":[{"id":"a"},{"no":"id"},{"id":"b"}]}"#;
    assert_eq!(lmstudio::loaded_models(1234, true, reply).unwrap(), ["a", "b"]);
    assert_eq!(
        lmstudio::loaded_models(1234, false, b"").unwrap_err().message,
        "server did not respond on port 1234; start it with `lms server start`"
    );
    assert_eq!(
        lmstudio::loaded_models(1234, true, b"x").unwrap_err().message,
        "parsing /v1/models response"
    );
    let reply = br#"{"models":[{"name":"llama3:latest"}]}"#;
    assert_eq!(ollama::local_models(1, true, reply).unwrap(), ["llama3:latest"]);
    assert!(ollama::local_models(1, true, b"{}").unwrap().is_empty());
    assert_eq!(
        ollama::local_models(1, false, b"").unwrap_err().message,
        "Ollama did not respond on port 1; start it with `ollama serve`"
    );
    assert_eq!(
        ollama::local_models(1, true, b"").unwrap_err().message,
        "parsing /api/tags response"
    );
}

#[test]
fn the_model_asked_for_is_measured_or_the_first_loaded() {
    let loaded = vec!["a".to_string(), "b".to_string()];
    assert_eq!(choose_model(None, &loaded).unwrap(), "a");
    assert_eq!(choose_model(Some("z".to_string()), &loaded).unwrap(), "z");
    assert_eq!(
        choose_model(None, &vec![]).unwrap_err(),
        "no model is loaded; run `lms load <model>` first"
    );
}

#[test]
fn where_things_are() {
    assert_eq!(endpoint(80, "/x"), "http://127.0.0.1:80/x");
    assert_eq!(log_path(Some("/h"), None).as_deref(), Some("/h/.sift/bench.jsonl"));
    assert_eq!(log_path(None, Some("/p")).as_deref(), Some("/p/.sift/bench.jsonl"));
    assert_eq!(log_path(None, None), None);
    assert_eq!(lms_path("/h"), "/h/.lmstudio/bin/lms");
    assert_eq!(
        lms_missing("/h/lms"),
        "LM Studio CLI not found at /h/lms. Install LM Studio, then run `lms bootstrap`."
    );
    assert!(lmstudio::no_server_message(7).starts_with("no LM Studio server on port 7."));
}

#[test]
fn calibration_regimes_and_files() {
    assert_eq!(Regime::classify(8, 10), Regime::B);
    assert_eq!(Regime::classify(20, 10), Regime::C);
    assert_eq!(Regime::classify(u64::MAX, u64::MAX), Regime::B);
    assert!(Regime::A.expectation().starts_with("resident"));
    let file = |path: &str, size: u64| ModelFile { path: path.to_string(), size };
    let sorted = models(vec![file("a", 1), file("b", 3), file("c", 3), file("d", 2)]);
    let order: Vec<&str> = sorted.iter().map(|f| f.path.as_str()).collect();
    assert_eq!(order, ["b", "c", "d", "a"]);
}

#[test]
fn selected_runtimes_are_ticked() {
    let out = "LLM RUNTIME   SELECTED\n  llama.cpp-mac  ✓  \n  mlx-engine\n\tvision ✓\n";
    assert_eq!(selected_runtimes(out), ["llama.cpp-mac  ✓", "vision ✓"]);
    assert!(selected_runtimes("").is_empty());
}
