//! The engines, and which of them should run a model.

use sift::engine::{
    candidate_paths, detect_installed, engines, format_gib, route, which, Format, Installed,
    Oversized, Probes, Regime,
};

const GIB: u64 = 1 << 30;

fn installed(ids: &[&str]) -> Vec<Installed> {
    engines()
        .into_iter()
        .filter(|e| ids.contains(&e.id))
        .map(|e| Installed { engine: e, found_at: "/test".to_string() })
        .collect()
}

fn nothing_on_path() -> Probes {
    Probes {
        ollama: None,
        llama_server: None,
        llama_cli: None,
        mlx_generate: None,
        colibri: None,
        local_app_data: None,
    }
}

#[test]
fn engine_regimes_split_at_the_documented_boundaries() {
    let usable = 12 * GIB;
    assert_eq!(Regime::classify(5 * GIB, usable), Regime::Fits);
    assert_eq!(Regime::classify(11 * GIB, usable), Regime::Tight);
    assert_eq!(Regime::classify(30 * GIB, usable), Regime::Oversized);
}

#[test]
fn zero_usable_memory_means_nothing_fits() {
    assert_eq!(Regime::classify(1, 0), Regime::Oversized);
}

#[test]
fn a_model_that_fits_goes_to_an_installed_engine() {
    let r = route(5 * GIB, Format::Gguf, 12 * GIB, &installed(&["lm-studio"]));
    assert_eq!(r.engine.as_ref().unwrap().id, "lm-studio");
    assert!(r.installed);
    assert!(r.avoid.is_empty(), "nothing to avoid when the model fits");
}

#[test]
fn an_oversized_model_never_routes_to_an_engine_that_thrashes() {
    let r = route(
        60 * GIB,
        Format::Gguf,
        12 * GIB,
        &installed(&["lm-studio", "ollama", "colibri"]),
    );
    assert_eq!(r.engine.as_ref().unwrap().id, "colibri");
    assert_eq!(r.engine.as_ref().unwrap().oversized, Oversized::Streams);
}

#[test]
fn an_oversized_model_names_the_installed_engines_to_avoid() {
    let r = route(60 * GIB, Format::Gguf, 12 * GIB, &installed(&["lm-studio", "ollama"]));
    let ids: Vec<&str> = r.avoid.iter().map(|(e, _)| e.id).collect();
    assert!(ids.contains(&"lm-studio"));
    assert!(ids.contains(&"ollama"));
    assert!(
        r.avoid.iter().all(|(_, why)| !why.is_empty()),
        "every avoidance must say why"
    );
}

#[test]
fn only_installed_engines_are_listed_as_things_to_avoid() {
    let r = route(60 * GIB, Format::Gguf, 12 * GIB, &installed(&[]));
    assert!(r.avoid.is_empty());
}

#[test]
fn an_uninstalled_but_suitable_engine_is_still_suggested() {
    let r = route(60 * GIB, Format::Gguf, 12 * GIB, &installed(&["lm-studio"]));
    assert_eq!(r.engine.as_ref().unwrap().id, "colibri");
    assert!(!r.installed, "colibri is not installed in this scenario");
    assert!(!r.engine.as_ref().unwrap().install.is_empty());
}

#[test]
fn format_is_respected() {
    let r = route(5 * GIB, Format::Mlx, 12 * GIB, &installed(&["llama.cpp"]));
    let id = r.engine.as_ref().unwrap().id;
    assert!(id == "lm-studio" || id == "mlx", "got {id}");
}

#[test]
fn a_tight_fit_is_flagged_rather_than_called_fine() {
    let r = route(11 * GIB, Format::Gguf, 12 * GIB, &installed(&["ollama"]));
    assert!(
        r.reason.contains("only just fits"),
        "the warning must reach the user: {}",
        r.reason
    );
}

#[test]
fn every_registry_entry_is_complete() {
    for e in engines() {
        assert!(!e.id.is_empty() && !e.name.is_empty(), "{} incomplete", e.id);
        assert!(!e.formats.is_empty(), "{} declares no formats", e.id);
        assert!(!e.sweet_spot.is_empty(), "{} has no sweet spot", e.id);
        assert!(!e.install.is_empty(), "{} has no install hint", e.id);
    }
}

#[test]
fn at_least_one_engine_can_handle_oversized_models() {
    assert!(engines().iter().any(|e| e.oversized == Oversized::Streams));
}

#[test]
fn a_data_directory_is_never_treated_as_an_installed_engine() {
    let paths = candidate_paths("ollama", Some("/home/someone"), &nothing_on_path())
        .expect("ollama has a rule");
    assert!(
        !paths.iter().any(|p| p.ends_with("/.ollama")),
        "a data directory is not an engine: {paths:?}"
    );
}

#[test]
fn every_candidate_path_is_something_that_can_run_a_model() {
    for engine in engines() {
        let paths = candidate_paths(engine.id, Some("/home/someone"), &nothing_on_path());
        for path in paths.unwrap_or_default() {
            let name = path.rsplit('/').next().unwrap_or_default().to_ascii_lowercase();
            assert!(
                !name.starts_with('.'),
                "{}: {} is a data directory, not a program",
                engine.id,
                path
            );
        }
    }
}

#[test]
fn every_engine_in_the_registry_is_looked_for_somewhere() {
    for engine in engines() {
        assert!(
            candidate_paths(engine.id, Some("/home/someone"), &nothing_on_path()).is_some(),
            "{} is in the registry but nothing looks for it",
            engine.id
        );
    }
    assert_eq!(candidate_paths("not-an-engine", Some("/home/someone"), &nothing_on_path()), None);
}

// What is proved of all inputs, on a few.

#[test]
fn the_first_path_that_exists_is_where_an_engine_is() {
    let e = engines()[0];
    let paths = vec!["/a".to_string(), "/b".to_string(), "/c".to_string()];
    let found = detect_installed(&e, &paths, &vec![false, true, true]).expect("found");
    assert_eq!(found.found_at, "/b");
    assert_eq!(found.engine.id, e.id);
    assert!(detect_installed(&e, &paths, &vec![false, false, false]).is_none());
}

#[test]
fn programs_are_looked_for_in_every_directory() {
    let dirs = vec!["/usr/bin".to_string(), "/opt/bin/".to_string()];
    assert_eq!(
        which(&dirs, "ollama"),
        ["/usr/bin/ollama", "/usr/bin/ollama.exe", "/opt/bin/ollama", "/opt/bin/ollama.exe"]
    );
}

#[test]
fn a_program_on_the_path_is_a_candidate() {
    let mut probes = nothing_on_path();
    probes.ollama = Some("/somewhere/ollama".to_string());
    let paths = candidate_paths("ollama", None, &probes).expect("a rule");
    assert!(paths.contains(&"/somewhere/ollama".to_string()), "{paths:?}");
}

#[test]
fn sizes_are_rounded_to_a_tenth() {
    assert_eq!(format_gib(0), "0.0");
    assert_eq!(format_gib(GIB), "1.0");
    assert_eq!(format_gib(GIB + GIB / 2), "1.5");
    assert_eq!(format_gib(GIB / 4), format!("{:.1}", 0.25));
    assert_eq!(format_gib(3 * GIB / 4), format!("{:.1}", 0.75));
    assert_eq!(format_gib(60 * GIB), "60.0");
}

#[test]
fn a_regime_changes_exactly_at_its_boundaries() {
    assert_eq!(Regime::classify(3, 4), Regime::Fits);
    assert_eq!(Regime::classify(4, 5), Regime::Tight);
    assert_eq!(Regime::classify(5, 5), Regime::Tight);
    assert_eq!(Regime::classify(6, 5), Regime::Oversized);
    assert_eq!(Regime::classify(u64::MAX, u64::MAX), Regime::Tight);
}

#[test]
fn a_recommendation_depends_only_on_which_engines_are_there() {
    let one = route(60 * GIB, Format::Gguf, 12 * GIB, &installed(&["ollama", "lm-studio"]));
    let two = route(60 * GIB, Format::Gguf, 12 * GIB, &installed(&["lm-studio", "ollama", "ollama"]));
    let ids = |r: &sift::engine::Recommendation| {
        let avoid: Vec<&str> = r.avoid.iter().map(|(e, _)| e.id).collect();
        let also: Vec<&str> = r.also_suitable.iter().map(|e| e.id).collect();
        (r.engine.as_ref().map(|e| e.id), r.installed, r.reason.clone(), also, avoid)
    };
    assert_eq!(ids(&one), ids(&two));
}
