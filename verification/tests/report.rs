//! What is told of a result.

use sift::bench::Run;
use sift::calibrate::ModelFile;
use sift::doctor::{DiskSample, MemorySample};
use sift::engine::{self, Format, Installed, Regime};
use sift::fit::{Candidate, Estimate};
use sift::ls::{self, LocalModel, Row};
use sift::model::gguf::MAGIC;
use sift::model::{infer_moe_shape, Gguf, MoeShape, TokenTraffic};
use sift::platform::{AccelMemory, MachineFacts};
use sift::ratio::Ratio;
use sift::report::bench::{Cli, Runtimes};
use sift::report::data::Data;
use sift::report::{self, Page, Piece};

const GIB: u64 = 1 << 30;

/// The lines of a report as they are printed.
fn render(page: &Page) -> Vec<String> {
    let mut out = Vec::new();
    for line in &page.lines {
        let mut s = String::new();
        for piece in line {
            match piece {
                Piece::Text(t) => s.push_str(t),
                Piece::Figure { value, places, width } => {
                    let v = value.numer as f64 / value.denom as f64;
                    s.push_str(&format!("{v:>width$.places$}", width = *width, places = *places));
                }
            }
        }
        out.push(s);
    }
    out
}

fn ratio(numer: u128, denom: u128) -> Ratio {
    Ratio { numer, denom }
}

fn facts(accel_memory: AccelMemory) -> MachineFacts {
    MachineFacts {
        ram_bytes: 16 * GIB,
        available_bytes: Some(9 * GIB + GIB / 2),
        page_bytes: 16384,
        cpus: 10,
        model: Some("Mac17,2".to_string()),
        accel_memory,
    }
}

const MEM: MemorySample = MemorySample { total_bytes: 1_200_000_000, nanos: 10_000_000 };

fn installed(id: &str) -> Installed {
    let e = engine::engines();
    let i = e.iter().position(|e| e.id == id).expect("a known engine");
    Installed { engine: e[i], found_at: format!("/opt/{id}") }
}

fn candidate(label: &str, megabytes: u64, bpw: Option<Ratio>, regime: Regime) -> Candidate {
    let size_bytes = megabytes * 1_000_000;
    Candidate {
        label: label.to_string(),
        download_arg: format!("{label}.gguf"),
        size_bytes,
        traffic: TokenTraffic { expert_bytes: 0, trunk_bytes: size_bytes },
        regime,
        est_tok_s: match regime {
            Regime::Oversized => Estimate::DiskBound,
            _ => Estimate::TokensPerSec(ratio(123, 10)),
        },
        is_moe: false,
        bits_per_weight: bpw,
        kv_bytes: 400_000_000,
        shard_count: 1,
        format: Format::Gguf,
    }
}

#[test]
fn a_sweep_is_told_in_aligned_columns() {
    let cands = vec![
        candidate("Q2_K", 11_260, Some(ratio(295, 100)), Regime::Fits),
        candidate("Q4_K_M", 18_560, None, Regime::Oversized),
    ];
    let page = report::fit::report("org/repo", &cands, 12 * GIB, &[installed("ollama")], 4096)
        .expect("a report");
    let lines = render(&page);
    assert_eq!(
        lines[0],
        "\n  fits assumes 4096 tokens of context: 0.40 GB of f16 KV cache, counted\n  alongside the weights. Change it with --ctx."
    );
    assert_eq!(
        lines[1],
        format!(
            "\n  {:<14} {:>9} {:>8} {:>6} {:>11} {:>10}",
            "quant", "size", "fits", "bpw", "GB/token", "est tok/s"
        )
    );
    assert_eq!(
        lines[2],
        format!(
            "  {:<14} {:>6.2} GB {:>8} {:>6.2} {:>11.3} {:>10.0}  {}",
            "Q2_K", 11.26, "yes", 2.95, 11.26, 12.3, "dense, damaged"
        )
    );
    assert_eq!(
        lines[3],
        format!(
            "  {:<14} {:>6.2} GB {:>8} {:>6} {:>11.3} {}  {}",
            "Q4_K_M", 18.56, "no", "?", 18.56, "  disk-bound", "dense"
        )
    );
    assert_eq!(lines[4], "\n  recommended: Q2_K");
    assert!(lines[5].starts_with("    engine     Ollama — it "), "{}", lines[5]);
    assert_eq!(
        lines[6],
        format!(
            "\n    warning    at {:.2} bits per weight this is below the {:.1}-bit\n{:>15}floor where quantization stops degrading gracefully. Nothing\n{:>15}better fits here. Expect noticeably worse output than the same\n{:>15}model at 4 bits — consider a smaller model instead.",
            2.95, 3.0, "", "", ""
        )
    );
    assert_eq!(lines[7], "    download   huggingface-cli download org/repo Q2_K.gguf");
    assert_eq!(
        lines[8],
        "\n  tok/s figures are estimates from measured memory bandwidth, not measurements.\n  MoE rows assume 76% of roofline, dense rows 90%. Run `sift bench` for real numbers."
    );
    assert_eq!(lines.len(), 9);
}

#[test]
fn a_sweep_where_nothing_fits_says_what_can_still_run_it() {
    let mut big = candidate("Q8_0", 60_000, Some(ratio(85, 10)), Regime::Oversized);
    big.kv_bytes = 0;
    let page = report::fit::report("org/repo", &[big], 12 * GIB, &[installed("ollama")], 4096)
        .expect("a report");
    let lines = render(&page);
    assert!(lines[0].starts_with("\n  KV cache not counted"));
    assert_eq!(lines[3], "\n  nothing here fits in 12.0 GiB of usable memory.");
    assert_eq!(lines[4], "    the smallest option is Q8_0 at 60.00 GB.");
    assert!(lines[5].starts_with("    colibri can still run it: it exceeds memory, and colibri"));
    assert_eq!(lines[6], "    not installed: https://github.com/JustVugg/colibri");
    assert_eq!(
        lines[7],
        "    avoid Ollama: will load, then page against the OS and slow to a crawl"
    );
}

#[test]
fn a_sweep_without_candidates_is_an_error() {
    let why = report::fit::report("org/repo", &[], GIB, &[], 4096).expect_err("nothing to tell");
    assert_eq!(why, "no readable GGUF files in `org/repo`");
}

#[test]
fn a_sweep_opens_with_the_machine() {
    let page = report::fit::opening("org/repo", &facts(AccelMemory::Unknown), 12 * GIB, &MEM);
    assert_eq!(
        render(&page),
        [
            "machine: Mac17,2, 16.0 GiB RAM, 12.0 GiB usable, 120 GB/s memory",
            "reading headers from org/repo without downloading…",
        ]
    );
}

/// The value under a key.
fn at<'a>(d: &'a Data, key: &str) -> &'a Data {
    match d {
        Data::Fields(v) => &v.iter().find(|(k, _)| *k == key).expect("a field").1,
        _ => panic!("no fields"),
    }
}

fn keys(d: &Data) -> Vec<&str> {
    match d {
        Data::Fields(v) => v.iter().map(|(k, _)| *k).collect(),
        _ => panic!("no fields"),
    }
}

fn text(s: &str) -> Data {
    Data::Text(s.to_string())
}

#[test]
fn a_sweep_as_a_document_says_nothing_rather_than_zero_when_disk_bound() {
    let cands = vec![
        candidate("Q2_K", 11_260, Some(ratio(295, 100)), Regime::Fits),
        candidate("Q4_K_M", 18_560, None, Regime::Oversized),
    ];
    let accel = AccelMemory::Discrete { bytes: 8 * GIB, vendor: "nvidia" };
    let d = report::fit::report_json("org/repo", &cands, &facts(accel), 12 * GIB, &MEM, 4096);
    assert_eq!(
        keys(&d),
        [
            "repo",
            "machine",
            "context_tokens",
            "quality_floor_bits_per_weight",
            "candidates",
            "recommended",
            "estimates"
        ]
    );
    let machine = at(&d, "machine");
    assert_eq!(*at(machine, "usable_memory_bytes"), Data::Uint(12 * GIB));
    assert_eq!(
        *at(machine, "measured_memory_gb_per_sec"),
        Data::Figure(ratio(1_200_000_000, 10_000_000))
    );
    assert_eq!(*at(at(machine, "accel_memory"), "state"), text("discrete"));
    assert_eq!(*at(at(machine, "accel_memory"), "vendor"), text("nvidia"));
    let rows = match at(&d, "candidates") {
        Data::List(v) => v,
        _ => panic!("no list"),
    };
    assert_eq!(rows.len(), 2);
    assert_eq!(*at(&rows[0], "quant"), text("Q2_K"));
    assert_eq!(*at(&rows[0], "footprint_bytes"), Data::Uint(11_660_000_000));
    assert_eq!(*at(&rows[0], "below_quality_floor"), Data::Bool(true));
    assert_eq!(*at(&rows[0], "estimated_tokens_per_sec"), Data::Figure(ratio(123, 10)));
    assert_eq!(*at(&rows[1], "regime"), text("oversized"));
    assert_eq!(*at(&rows[1], "bits_per_weight"), Data::Null);
    assert_eq!(*at(&rows[1], "estimated_tokens_per_sec"), Data::Null);
    assert_eq!(*at(at(&d, "recommended"), "download_arg"), text("Q2_K.gguf"));
    assert_eq!(*at(at(&d, "estimates"), "moe_efficiency"), Data::Figure(ratio(76, 100)));
}

#[test]
fn a_machine_is_told_with_what_was_measured() {
    let f = facts(AccelMemory::Limited { bytes: 11 * GIB });
    let lines = render(&report::doctor::report(&f, &MEM, &vec![], 0));
    assert_eq!(
        lines,
        [
            "machine",
            "  model            Mac17,2",
            "  ram              16.0 GiB",
            "  page size        16 KiB",
            "  cpus             10",
            "  available now    9.5 GiB",
            "  gpu wired limit  11.0 GiB",
            "\nmemory bandwidth",
            "  STREAM copy      120.0 GB/s",
            "  -> resident ceiling for a model reading 1.1 GB/token: 109 tok/s",
            "\ndisk: not measured (pass --disk-sample <file>)",
            "  Use a file this machine has NOT read recently. F_NOCACHE stops new",
            "  caching but cannot evict resident pages, so a warm file reports RAM.",
        ]
    );
}

#[test]
fn an_accelerator_that_was_not_measured_is_not_guessed_at() {
    let accel_line = |a| {
        let mut f = facts(a);
        f.available_bytes = None;
        render(&report::doctor::report(&f, &MEM, &vec![], 0))[5].clone()
    };
    assert_eq!(
        accel_line(AccelMemory::PlatformDefault),
        format!(
            "  gpu wired limit  unset -> macOS default, well below physical RAM.\n{:>19}This, not your RAM, is what an 11 GB model hits first.\n{:>19}Raise with: sudo sysctl iogpu.wired_limit_mb=<MB>",
            "", ""
        )
    );
    assert_eq!(
        accel_line(AccelMemory::Unknown),
        format!(
            "  accelerator      not measured on this platform.\n{:>19}sift is using host memory only; if you have a discrete GPU, its\n{:>19}VRAM is not accounted for and `fits` will be conservative.",
            "", ""
        )
    );
    assert!(accel_line(AccelMemory::Discrete { bytes: 8 * GIB, vendor: "nvidia" })
        .starts_with("  discrete vram    8.0 GiB (nvidia)"));
}

fn sample(block_bytes: usize, threads: usize, total_bytes: u64, nanos: u64) -> DiskSample {
    DiskSample { block_bytes, threads, reads: 1000, total_bytes, nanos }
}

#[test]
fn a_disk_is_told_by_its_best_trustworthy_sample() {
    let disk = vec![
        sample(64 << 10, 1, 2_000_000_000, 1_000_000_000),
        sample(1 << 20, 4, 6_000_000_000, 1_000_000_000),
        sample(4 << 20, 8, 30_000_000_000, 1_000_000_000),
    ];
    let f = facts(AccelMemory::Unknown);
    let lines = render(&report::doctor::report(&f, &MEM, &disk, 40_000_000_000));
    let from = lines.iter().position(|l| l == "\ndisk, cold random read").expect("a table");
    assert_eq!(
        lines[from + 1],
        format!("  {:>8}  {:>7}  {:>9}  {:>10}", "block", "threads", "GB/s", "ms/read")
    );
    assert_eq!(
        lines[from + 2],
        format!("  {:>7}K  {:>7}  {:>9.2}  {:>10.3}", 64, 1, 2.0, 1.0)
    );
    assert_eq!(
        lines[from + 4],
        format!(
            "  {:>7}K  {:>7}  {:>9.2}  {:>10.3}{}",
            4096, 8, 30.0, 1.0, "   <- page cache, not disk"
        )
    );
    assert_eq!(
        lines[from + 5],
        format!(
            "\n  caveat: this sweep read {:.1} GiB of a {:.1} GiB sample, so later rows\n  are partly page-cache hits. Earlier rows are the trustworthy ones.\n  For a clean sweep use a sample at least 4x your RAM.",
            38e9 / 1073741824.0,
            40e9 / 1073741824.0
        )
    );
    assert_eq!(
        lines[from + 6],
        "\n  1 of 3 samples exceeded 20 GB/s, which no consumer NVMe can do."
    );
    assert_eq!(
        lines[from + 9],
        format!(
            "\n  best trustworthy {:.2} GB/s -> streamed ceiling at 1.1 GB/token: {:.1} tok/s",
            6.0,
            6.0 / 1.1
        )
    );
    assert_eq!(
        lines[from + 10],
        "  RAM is 20x faster than this disk. That ratio is why residency matters."
    );
    assert_eq!(lines.len(), from + 11);
}

#[test]
fn a_sweep_that_only_hit_the_cache_has_no_best_sample() {
    let disk = vec![sample(4 << 20, 8, 30_000_000_000, 1_000_000_000)];
    let lines = render(&report::doctor::report(&facts(AccelMemory::Unknown), &MEM, &disk, 0));
    assert_eq!(
        lines.last().expect("a line"),
        "\n  no trustworthy cold sample; every read hit the page cache."
    );
    assert!(!lines.iter().any(|l| l.contains("caveat")));
}

#[test]
fn a_machine_as_a_document_keeps_every_sample() {
    let disk = vec![sample(64 << 10, 1, 2_000_000_000, 1_000_000_000)];
    let d = report::doctor::report_json(&facts(AccelMemory::PlatformDefault), &MEM, &disk);
    assert_eq!(keys(&d), ["machine", "memory", "disk"]);
    assert_eq!(*at(at(&d, "machine"), "cpus"), Data::Uint(10));
    assert_eq!(*at(at(at(&d, "machine"), "accel_memory"), "state"), text("platform_default"));
    assert_eq!(*at(at(&d, "memory"), "seconds"), Data::Figure(ratio(10_000_000, 1_000_000_000)));
    match at(&d, "disk") {
        Data::List(v) => {
            assert_eq!(v.len(), 1);
            assert_eq!(*at(&v[0], "block_bytes"), Data::Uint(65536));
            assert_eq!(
                *at(&v[0], "ms_per_read"),
                Data::Figure(ratio(1_000_000_000, 1_000_000_000))
            );
        }
        other => panic!("no list: {other:?}"),
    }
}

#[test]
fn a_figure_that_no_memory_reaches_is_refused() {
    let f = facts(AccelMemory::Unknown);
    let disk = vec![sample(64 << 10, 1, 2_000_000_000, 1_000_000_000)];
    let refused = "  STREAM copy      refused: above 1200 GB/s, which no memory reaches";
    let fast = MemorySample { total_bytes: 2_000, nanos: 1 };
    for mem in [fast, MemorySample { total_bytes: 5, nanos: 0 }] {
        let lines = render(&report::doctor::report(&f, &mem, &disk, 0));
        assert!(lines.iter().any(|l| l == refused), "{lines:?}");
        assert!(lines.iter().any(|l| l.contains("best trustworthy 2.00 GB/s")), "{lines:?}");
        assert!(!lines.iter().any(|l| l.contains("resident ceiling")), "{lines:?}");
        assert!(!lines.iter().any(|l| l.starts_with("  RAM is ")), "{lines:?}");
        let d = report::doctor::report_json(&f, &mem, &disk);
        assert_eq!(*at(at(&d, "memory"), "gb_per_sec"), Data::Null);
    }
    let edge = MemorySample { total_bytes: 1_200, nanos: 1 };
    let lines = render(&report::doctor::report(&f, &edge, &disk, 0));
    assert!(lines.iter().any(|l| l == "  STREAM copy      1200.0 GB/s"), "{lines:?}");
    assert!(lines.iter().any(|l| l.contains("RAM is 600x faster")), "{lines:?}");
    let d = report::doctor::report_json(&f, &edge, &disk);
    assert_eq!(*at(at(&d, "memory"), "gb_per_sec"), Data::Figure(ratio(1_200, 1)));
}

#[test]
fn no_time_is_an_unbounded_rate_and_nothing_in_no_time_is_none() {
    let some = MemorySample { total_bytes: 5, nanos: 0 };
    let none = MemorySample { total_bytes: 0, nanos: 0 };
    assert_eq!(some.bytes_per_sec(), u64::MAX);
    assert_eq!(none.bytes_per_sec(), 0);
    assert_eq!(MEM.bytes_per_sec(), 120_000_000_000);
}

fn put_str(b: &mut Vec<u8>, s: &str) {
    b.extend_from_slice(&(s.len() as u64).to_le_bytes());
    b.extend_from_slice(s.as_bytes());
}

/// A file with one layer of four stacked experts, of which a token uses two.
fn experts() -> Gguf {
    let mut b = Vec::new();
    b.extend_from_slice(&MAGIC.to_le_bytes());
    b.extend_from_slice(&3u32.to_le_bytes());
    b.extend_from_slice(&4u64.to_le_bytes());
    b.extend_from_slice(&2u64.to_le_bytes());
    put_str(&mut b, "general.architecture");
    b.extend_from_slice(&8u32.to_le_bytes());
    put_str(&mut b, "olmoe");
    put_str(&mut b, "olmoe.expert_used_count");
    b.extend_from_slice(&4u32.to_le_bytes());
    b.extend_from_slice(&2u32.to_le_bytes());
    let mut offset = 0u64;
    for (name, dims, dtype) in [
        ("token_embd.weight", vec![1024u64, 256], 0u32),
        ("blk.0.ffn_gate_exps.weight", vec![512, 1024, 4], 0),
        ("blk.0.ffn_up_exps.weight", vec![512, 1024, 4], 0),
        ("blk.0.ffn_down_exps.weight", vec![1024, 512, 4], 0),
    ] {
        put_str(&mut b, name);
        b.extend_from_slice(&(dims.len() as u32).to_le_bytes());
        for d in &dims {
            b.extend_from_slice(&d.to_le_bytes());
        }
        b.extend_from_slice(&dtype.to_le_bytes());
        b.extend_from_slice(&offset.to_le_bytes());
        offset += dims.iter().product::<u64>() * 4;
    }
    Gguf::parse(&b).expect("a directory")
}

#[test]
fn a_mixture_of_experts_is_told_with_its_access_pattern() {
    let g = experts();
    let lines = render(&report::model::inspect("m.gguf", &g, Some(1 << 20), false));
    assert_eq!(
        lines,
        [
            "m.gguf",
            "  gguf version     3",
            "  architecture     olmoe",
            "  tensors          4",
            "  tensor payload   0.02 GiB",
            "  read over HTTP   1.00 MiB of a 0.02 GiB model (4.0000%)",
            "\nmixture of experts",
            "  moe layers       1",
            "  experts / layer  4",
            "  active / token   2",
            "  activation       50.00% of expert weights per token",
            "  one expert       6.00 MiB mean (gate + up + down)",
            "  expert weights   0.02 GiB total",
            "\n  layer 0 expert 0 spans 3 ranges, contiguous: no -> 3 scattered reads",
        ]
    );
}

#[test]
fn the_tensor_listing_is_aligned_element_by_element() {
    let g = experts();
    let lines = render(&report::model::inspect("m.gguf", &g, None, true));
    assert_eq!(lines[5], "  read from disk   directory only, payload untouched");
    let from = lines.iter().position(|l| l == "\ntensors").expect("a listing");
    let dims: Vec<u64> = vec![1024, 256];
    assert_eq!(
        lines[from + 1],
        format!(
            "  {:<44} {:<8} {:>14?}  {:>12}",
            "token_embd.weight",
            "F32",
            dims,
            1024 * 256 * 4
        )
    );
    assert_eq!(lines.len(), from + 5);
}

#[test]
fn a_dense_model_is_told_as_one() {
    let mut b = Vec::new();
    b.extend_from_slice(&MAGIC.to_le_bytes());
    b.extend_from_slice(&3u32.to_le_bytes());
    b.extend_from_slice(&0u64.to_le_bytes());
    b.extend_from_slice(&0u64.to_le_bytes());
    let g = Gguf::parse(&b).expect("a directory");
    let lines = render(&report::model::inspect("m", &g, Some(7), false));
    assert_eq!(lines[2], "  architecture     unknown");
    // Nothing to divide by counts as one byte.
    assert_eq!(lines[5], "  read over HTTP   0.00 MiB of a 0.00 GiB model (700.0000%)");
    assert_eq!(lines[6], "\ndense model (no stacked expert tensors)");
}

#[test]
fn a_plan_tells_traffic_and_ceilings() {
    let shape = MoeShape {
        moe_layers: 16,
        experts_per_layer: 64,
        experts_per_token: 8,
        bytes_per_expert: 4_000_000,
    };
    let traffic = TokenTraffic { expert_bytes: 512_000_000, trunk_bytes: 288_000_000 };
    let lines = render(&report::model::plan("olmoe", &shape, &traffic, &MEM, 250_000));
    let tps = |bw: f64| bw / (512e6 * 0.75 + 288e6);
    assert_eq!(
        lines,
        [
            "olmoe".to_string(),
            "\nper-token weight traffic".to_string(),
            "  routed experts   0.512 GB   (8 experts x 16 layers)".to_string(),
            "  always-active    0.288 GB   (read every token, no cache helps)".to_string(),
            "  total cold       0.800 GB".to_string(),
            "\nceilings at hit rate 25%".to_string(),
            format!(
                "  resident  @ {:>6.1} GB/s measured memory : {:>6.1} tok/s",
                120.0,
                tps(120e9)
            ),
            format!(
                "  streamed  @ {:>6.1} GB/s typical NVMe    : {:>6.1} tok/s",
                6.15,
                tps(6.15e9)
            ),
            "\n  These are roofline ceilings, not predictions. Real MoE decode lands at\n  25-35% of them because expert gather is scattered. Measure, do not assume."
                .to_string(),
        ]
    );
    let nothing = TokenTraffic { expert_bytes: 0, trunk_bytes: 0 };
    let lines = render(&report::model::plan("x", &shape, &nothing, &MEM, -500_000));
    assert_eq!(lines[5], "\nceilings at hit rate -50%");
    assert_eq!(lines[6], "  resident  @  120.0 GB/s measured memory :    inf tok/s");
}

#[test]
fn a_route_names_what_to_use_and_what_to_avoid() {
    let found = [installed("ollama"), installed("llama.cpp")];
    let lines = render(&report::model::route("m", 5 * GIB, Format::Gguf, 12 * GIB, &found));
    assert_eq!(lines[0], "m");
    assert_eq!(lines[1], "  size             5.00 GiB");
    assert_eq!(lines[2], "  usable memory    12.00 GiB");
    assert_eq!(lines[3], "\n  use Ollama (installed)");
    assert_eq!(
        lines[4],
        "  because it fits in memory, and models that fit, with the simplest workflow"
    );
    assert_eq!(lines[5], "\n  also suitable if installed: LM Studio, colibri");
    assert_eq!(lines.len(), 6);

    let lines = render(&report::model::route("m", 60 * GIB, Format::Gguf, 12 * GIB, &found));
    assert_eq!(lines[3], "\n  use colibri (NOT installed)");
    assert_eq!(lines[5], "  install: https://github.com/JustVugg/colibri");
    assert_eq!(lines[6], "\n  installed, but do not use for this model:");
    assert_eq!(
        lines[7],
        format!(
            "    {:<12} {}",
            "Ollama", "will load, then page against the OS and slow to a crawl"
        )
    );
    assert_eq!(lines.len(), 9);

    let lines = render(&report::model::route("m", 60 * GIB, Format::Mlx, 12 * GIB, &[]));
    assert!(lines[3].starts_with("\n  no suitable engine: at 60.0 GiB this exceeds"));
}

#[test]
fn every_known_engine_is_listed_found_or_not() {
    let lines = render(&report::model::engines(&[installed("colibri")]));
    assert_eq!(lines[0], "known engines\n");
    assert_eq!(lines[1], format!("  [ ] {:<12} {}", "LM Studio", "https://lmstudio.ai"));
    assert_eq!(lines[5], format!("  [x] {:<12} {}", "colibri", "/opt/colibri"));
    assert_eq!(
        lines[6],
        "\n  Detection fails soft: a missing binary means `not found here`, never"
    );
    assert_eq!(lines.len(), 9);
}

fn row(name: &str, est_tok_s: Estimate) -> Row {
    Row {
        model: LocalModel {
            source: "sift",
            name: name.to_string(),
            path: format!("/models/{name}"),
            size_bytes: 4_210_000_000,
        },
        regime: Regime::Fits,
        bits_per_weight: Some(ratio(487, 100)),
        is_moe: true,
        bytes_per_token: 799_000_000,
        est_tok_s,
        error: None,
    }
}

#[test]
fn local_models_are_told_in_aligned_columns() {
    let broken = ls::errored(
        LocalModel {
            source: "Ollama",
            name: "x:latest".to_string(),
            path: "/b".to_string(),
            size_bytes: 1_000_000_000,
        },
        "not a GGUF file".to_string(),
    );
    let rows = vec![
        row("olmoe-q4km.gguf", Estimate::TokensPerSec(ratio(464, 10))),
        broken,
    ];
    let lines = render(&report::ls::report(&rows, 4096));
    assert_eq!(
        lines[0],
        format!(
            "  {:<12} {:<44} {:>9} {:>7} {:>6} {:>10}",
            "engine", "model", "size", "fits", "bpw", "est tok/s"
        )
    );
    assert_eq!(
        lines[1],
        format!(
            "  {:<12} {:<44} {:>6.2} GB {:>7} {:>6} {:>10}  {}",
            "sift", "olmoe-q4km.gguf", 4.21, "yes", "4.87", "46", "moe"
        )
    );
    assert_eq!(
        lines[2],
        format!(
            "  {:<12} {:<44} {:>6.2} GB   unreadable: {}",
            "Ollama", "x:latest", 1.0, "not a GGUF file"
        )
    );
    assert_eq!(
        lines[3],
        "\n  fits assumes 4096 tokens of context. tok/s are estimates from\n  measured memory bandwidth, not measurements."
    );
    let d = report::ls::report_json(&rows, 4096);
    assert_eq!(*at(&d, "context_tokens"), Data::Uint(4096));
    match at(&d, "models") {
        Data::List(v) => {
            assert_eq!(*at(&v[0], "path"), text("/models/olmoe-q4km.gguf"));
            assert_eq!(*at(&v[0], "error"), Data::Null);
            assert_eq!(*at(&v[1], "error"), text("not a GGUF file"));
            assert_eq!(*at(&v[1], "estimated_tokens_per_sec"), Data::Null);
        }
        other => panic!("no list: {other:?}"),
    }
}

#[test]
fn an_empty_library_says_where_was_looked() {
    let lines = render(&report::ls::report(&vec![], 4096));
    assert_eq!(lines[0], "no local models found.");
    assert_eq!(lines.len(), 4);
}

fn timed_run(tokens: u32, nanos: u64) -> Run {
    Run {
        engine: "lm-studio",
        model: "qwen".to_string(),
        completion_tokens: tokens,
        prompt_tokens: 12,
        nanos,
        engine_timed: false,
    }
}

#[test]
fn a_baseline_shows_every_run_and_the_median() {
    let runs = vec![
        timed_run(128, 6_000_000_000),
        timed_run(128, 8_000_000_000),
        timed_run(128, 6_400_000_000),
    ];
    let lines = render(&report::bench::baseline("qwen", &runs).expect("runs"));
    assert_eq!(lines[0], "lm studio baseline");
    assert_eq!(lines[2], "  prompt tokens    12");
    assert_eq!(lines[3], "  tokens per run   128");
    assert_eq!(lines[4], format!("\n  {:>5}  {:>9}  {:>10}", "run", "seconds", "tok/s"));
    assert_eq!(lines[5], format!("  {:>5}  {:>9.2}  {:>10.2}", 1, 6.0, 128.0 / 6.0));
    assert_eq!(lines[8], "\n  median 20.00 tok/s");
    assert_eq!(lines.len(), 10);

    let d = report::bench::baseline_json("qwen", &runs).expect("runs");
    assert_eq!(*at(&d, "engine"), text("lm-studio"));
    assert_eq!(
        *at(&d, "median_tokens_per_sec"),
        Data::Figure(ratio(128_000_000_000, 6_400_000_000))
    );
    let logged = report::bench::record(&runs[0], "2026-01-01");
    assert_eq!(*at(&logged, "recorded_at"), text("2026-01-01"));
    assert_eq!(*at(&logged, "engine_timed"), Data::Bool(false));

    assert_eq!(
        report::bench::baseline("qwen", &vec![]).expect_err("no runs"),
        "no runs completed"
    );
    assert_eq!(
        report::bench::baseline_json("qwen", &vec![]).expect_err("no runs"),
        "no runs completed"
    );
}

#[test]
fn a_probe_tells_which_runtimes_are_selected() {
    let f = facts(AccelMemory::Unknown);
    let tell = |runtimes| {
        let cli = Cli::Present { path: "/lms".to_string(), runtimes };
        render(&report::bench::probe(&f, 12 * GIB, &cli))
    };
    let lines = tell(Runtimes::Listed("a\n  mlx ✓ \nb ✓".as_bytes().to_vec()));
    assert_eq!(
        lines,
        [
            "machine",
            "  model        Mac17,2",
            "  ram          16.0 GiB",
            "  usable       12.0 GiB (regime boundary)",
            "\nlm studio",
            "  cli          /lms",
            "  selected runtimes:",
            "    mlx ✓",
            "    b ✓",
        ]
    );
    let lines = tell(Runtimes::Listed(b"a\n".to_vec()));
    assert_eq!(lines[6], "  runtimes     present, none marked selected");
    let lines = tell(Runtimes::Failed(b" no \xff daemon\n".to_vec()));
    assert_eq!(lines[6], "  runtimes     query failed: no \u{fffd} daemon");
    let lines = tell(Runtimes::NotRun("denied".to_string()));
    assert_eq!(lines[6], "  runtimes     could not run lms: denied");
    let lines = render(&report::bench::probe(&f, 0, &Cli::Absent("gone".to_string())));
    assert_eq!(lines[5], "  gone");
}

#[test]
fn files_are_told_from_the_largest_with_their_regime() {
    let file = |p: &str, size| ModelFile { path: p.to_string(), size };
    let found = vec![file("/m/a/small.gguf", 2 * GIB), file("/m/big.gguf", 60 * GIB)];
    let lines = render(&report::bench::models("/m", found, 12 * GIB));
    assert_eq!(lines[0], "usable RAM for regime classification: 12.0 GiB\n");
    assert_eq!(
        lines[1],
        format!(
            "  [{}] {:>7.2} GiB  {}\n         {}",
            "C", 60.0, "big.gguf", "disk-bound: most engines cannot run this at all"
        )
    );
    assert!(lines[2].starts_with("  [A]    2.00 GiB  small.gguf\n"));
    let lines = render(&report::bench::models("/m", vec![], GIB));
    assert_eq!(lines, ["no .gguf files under /m"]);
}

#[test]
fn what_is_told_of_a_shape_is_what_was_inferred() {
    let g = experts();
    let shape = infer_moe_shape(&g).expect("experts");
    assert_eq!(shape.bytes_per_expert, 3 * 512 * 1024 * 4);
    assert_eq!(g.total_tensor_bytes(), 25 << 20);
}

#[test]
fn models_and_engines_as_documents() {
    let g = experts();
    let d = report::model::inspect_json("m.gguf", &g, Some(77));
    assert_eq!(*at(&d, "architecture"), text("olmoe"));
    assert_eq!(*at(&d, "tensor_bytes"), Data::Uint(25 << 20));
    assert_eq!(*at(&d, "bytes_fetched"), Data::Uint(77));
    assert_eq!(*at(at(&d, "moe"), "total_expert_bytes"), Data::Uint(24 << 20));

    let shape = infer_moe_shape(&g).expect("experts");
    let traffic = TokenTraffic { expert_bytes: 3_000, trunk_bytes: 1_000 };
    let d = report::model::plan_json("m", &shape, &traffic, &MEM, 1_000_000);
    assert_eq!(*at(&d, "trunk_bytes_per_token"), Data::Uint(1_000));
    assert_eq!(
        *at(&d, "streamed_tokens_per_sec"),
        Data::Figure(ratio(6_150_000_000_000_000, 1_000_000_000))
    );

    let found = [installed("ollama")];
    let d = report::model::route_json("m", 60 * GIB, Format::Gguf, 12 * GIB, &found);
    assert_eq!(*at(&d, "engine"), text("colibri"));
    assert_eq!(*at(&d, "installed"), Data::Bool(false));
    match at(&d, "avoid") {
        Data::List(v) => assert_eq!(*at(&v[0], "engine"), text("ollama")),
        other => panic!("no list: {other:?}"),
    }
    let d = report::model::route_json("m", 5 * GIB, Format::Gguf, 12 * GIB, &found);
    assert_eq!(
        *at(&d, "also_suitable"),
        Data::List(vec![text("lm-studio"), text("llama.cpp"), text("colibri")])
    );

    match report::model::engines_json(&found) {
        Data::List(v) => {
            assert_eq!(v.len(), 5);
            assert_eq!(*at(&v[1], "found_at"), text("/opt/ollama"));
            assert_eq!(*at(&v[0], "found_at"), Data::Null);
        }
        other => panic!("no list: {other:?}"),
    }
}

#[test]
fn a_long_name_does_not_unalign_the_table() {
    let long = "lmstudio-community/Some-Very-Long-Vendor-Name/Model-Name-Q4_K_M.gguf";
    let rows = vec![
        row("olmoe-q4km.gguf", Estimate::TokensPerSec(ratio(46, 1))),
        row(long, Estimate::DiskBound),
        row("x", Estimate::Unbounded),
    ];
    let lines = render(&report::ls::report(&rows, 4096));
    // One row per model, between the head and the closing note.
    assert_eq!(lines.len(), rows.len() + 2);
    let width = |s: &str| s.chars().count();
    assert_eq!(width(&lines[1]), width(&lines[2]));
    assert_eq!(width(&lines[1]), width(&lines[3]));
    assert!(lines[2].contains("…"));
    assert!(lines[2].contains("disk-bound  moe"));
    assert!(lines[3].contains("       inf  moe"));
}

#[test]
fn a_sound_quantization_is_recommended_without_a_warning() {
    let cands = vec![candidate("Q4_K_M", 5_000, Some(ratio(487, 100)), Regime::Fits)];
    let page = report::fit::report("org/repo", &cands, 12 * GIB, &[installed("ollama")], 4096)
        .expect("a report");
    assert!(!render(&page).iter().any(|l| l.contains("warning")));
}
