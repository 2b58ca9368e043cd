//! Laying out and judging measurements.

use sift::doctor::{
    align_down, escapes_cache, random_sample, reads_per_thread, sequential_bytes,
    sequential_sample, share, summarise, sweep, sweep_steps, DiskSample, MemorySample, ReadPlan,
    BANDWIDTH_BUF_BYTES, BYTES_PER_THREAD, OFFSET_ALIGN,
};
use sift::ratio::Ratio;
use std::time::Instant;

fn value(r: Option<Ratio>) -> f64 {
    let r = r.expect("it took time");
    r.numer as f64 / r.denom as f64
}

/// A timed copy, the way a bandwidth measurement makes one.
fn measured_copy(bytes: usize, iterations: usize) -> MemorySample {
    let n = bytes / 8;
    let src = vec![1u64; n];
    let mut dst = vec![0u64; n];
    dst.copy_from_slice(&src);
    let started = Instant::now();
    for _ in 0..iterations {
        dst.copy_from_slice(&src);
        std::hint::black_box(&dst);
    }
    MemorySample::of_copy(bytes, iterations, started.elapsed().as_nanos().max(1) as u64)
}

/// A timed sweep by one thread.
fn measured_read(bytes: usize, iterations: usize) -> MemorySample {
    let src = vec![1u64; bytes / 8];
    let mut acc = sweep(&src, 0);
    let started = Instant::now();
    for _ in 0..iterations {
        acc = sweep(std::hint::black_box(&src), acc);
    }
    std::hint::black_box(acc);
    MemorySample::of_read(bytes, iterations, started.elapsed().as_nanos().max(1) as u64)
}

#[test]
fn memory_bandwidth_is_positive_and_finite() {
    let s = measured_copy(4 << 20, 4);
    let gb_per_sec = value(s.gb_per_sec());
    assert!(gb_per_sec > 0.0 && gb_per_sec.is_finite());
    assert_eq!(s.total_bytes, (4u64 << 20) * 2 * 4);
}

#[test]
fn random_read_reports_consistent_totals() {
    let file = vec![0xABu8; 1 << 20];
    let plan = ReadPlan::new(file.len() as u64, 4096).expect("large enough");
    let started = Instant::now();
    let mut read = 0u64;
    for t in 0..2 {
        for off in plan.offsets(t, 2, 8) {
            let block = &file[off as usize..off as usize + 4096];
            assert!(block.iter().all(|&b| b == 0xAB));
            read += 4096;
        }
    }
    let s = random_sample(4096, 2, 8, started.elapsed().as_nanos().max(1) as u64);
    assert_eq!(s.total_bytes, 4096 * 2 * 8);
    assert_eq!(s.total_bytes, read);
    assert_eq!(s.threads, 2);
    assert!(value(s.gb_per_sec()) > 0.0);
    assert!(value(s.ms_per_read()) >= 0.0);
}

#[test]
fn a_block_larger_than_the_file_is_rejected_not_silently_shrunk() {
    let err = ReadPlan::new(1024, 1 << 20).expect_err("must reject");
    assert_eq!(
        err,
        "file is 1024 bytes, too small for a 1048576-byte block; use a larger sample file"
    );
}

#[test]
fn offsets_stay_sector_aligned_however_odd_the_inputs() {
    let len: u64 = 1_048_576 + 1234;
    let block: u64 = 5000;
    let plan = ReadPlan::new(len, block as usize).expect("large enough");
    assert_eq!(plan.span, align_down(len.saturating_sub(block)));
    assert_eq!(plan.stride, align_down(block * 7 + OFFSET_ALIGN).max(OFFSET_ALIGN));
    assert!(plan.span > 0);
    assert_eq!(plan.span % OFFSET_ALIGN, 0);
    assert_eq!(plan.stride % OFFSET_ALIGN, 0);

    for threads in [1usize, 4, 8] {
        for t in 0..threads {
            let mut off = plan.start(t, threads);
            assert_eq!(
                off,
                align_down((plan.span / threads as u64).wrapping_mul(t as u64) % plan.span)
            );
            for listed in plan.offsets(t, threads, 64) {
                assert_eq!(off, listed);
                assert_eq!(off % OFFSET_ALIGN, 0, "offset {off} lost its alignment");
                assert!(off < plan.span, "offset {off} escaped the span");
                assert!(off + block <= len, "offset {off} runs past the end");
                off = plan.next(off);
            }
        }
    }
}

#[test]
fn align_down_never_rounds_up() {
    assert_eq!(align_down(0), 0);
    assert_eq!(align_down(1), 0);
    assert_eq!(align_down(4095), 0);
    assert_eq!(align_down(4096), 4096);
    assert_eq!(align_down(4097), 4096);
}

#[test]
fn a_multi_threaded_read_gives_every_thread_its_own_handle() {
    let plan = ReadPlan::new(4 << 20, 64 << 10).expect("large enough");
    let mut starts: Vec<u64> = (0..8).map(|t| plan.start(t, 8)).collect();
    starts.dedup();
    assert_eq!(starts.len(), 8, "every reader starts somewhere else");
    let s = random_sample(64 << 10, 8, 4, 1_000);
    assert_eq!(s.total_bytes, (64 << 10) * 8 * 4);
    assert_eq!(s.threads, 8);
}

#[test]
fn read_bandwidth_is_positive_and_counts_one_pass_per_iteration() {
    let s = measured_read(4 << 20, 4);
    let gb_per_sec = value(s.gb_per_sec());
    assert!(gb_per_sec > 0.0 && gb_per_sec.is_finite());
    assert_eq!(
        s.total_bytes,
        (4u64 << 20) * 4,
        "read-only touches each byte once, unlike copy's twice"
    );
}

#[test]
fn read_bandwidth_is_not_the_copy_figure() {
    let copy = measured_copy(64 << 20, 4);
    let read = measured_read(64 << 20, 4);
    assert!(value(copy.gb_per_sec()) > 0.0 && value(read.gb_per_sec()) > 0.0);
    assert_ne!(copy.total_bytes, read.total_bytes);
}

// What is proved of all inputs, on a few.

fn disk(total_bytes: u64, nanos: u64) -> DiskSample {
    DiskSample { block_bytes: 4096, threads: 1, reads: 1, total_bytes, nanos }
}

#[test]
fn a_disk_faster_than_any_disk_was_the_page_cache() {
    assert!(!disk(20, 1).looks_cached());
    assert!(disk(21, 1).looks_cached());
    assert!(disk(1, 0).looks_cached());
    assert!(!disk(0, 0).looks_cached());
}

#[test]
fn memory_faster_than_any_memory_was_not_measured() {
    assert!(!MemorySample { total_bytes: 1200, nanos: 1 }.is_implausible());
    assert!(MemorySample { total_bytes: 1201, nanos: 1 }.is_implausible());
    assert!(MemorySample { total_bytes: 0, nanos: 0 }.is_implausible());
}

#[test]
fn a_plateau_is_within_five_percent() {
    let s = |total_bytes: u64| MemorySample { total_bytes, nanos: 1_000 };
    assert!(escapes_cache(&s(100), &s(96)));
    assert!(!escapes_cache(&s(100), &s(95)));
    assert!(escapes_cache(&s(100), &s(200)));
    let top = MemorySample { total_bytes: u64::MAX, nanos: u64::MAX };
    assert!(escapes_cache(&top, &top));
    assert_eq!(BANDWIDTH_BUF_BYTES, 512 << 20);
}

#[test]
fn a_sequential_read_needs_the_whole_file() {
    assert_eq!(sequential_bytes(100, 10, 10), Ok(100));
    assert_eq!(sequential_bytes(99, 10, 10).unwrap_err(), "need 100 bytes, file has 99");
    let s = sequential_sample(10, 10, 7);
    assert_eq!((s.total_bytes, s.reads, s.threads, s.nanos), (100, 10, 1, 7));
}

#[test]
fn a_sweep_sums_four_lanes() {
    assert_eq!(sweep(&[1, 2, 4, 8, 16, 32, 64, 128, 9], 0), 17 ^ 34 ^ 68 ^ 136);
    assert_eq!(sweep(&[u64::MAX, 0, 0, 0], 2), 1);
    assert_eq!(sweep(&[1, 2, 3], 5), 5);
}

#[test]
fn shares_cover_the_buffer() {
    for (n, threads) in [(10usize, 3usize), (7, 7), (6, 7), (0, 1), (100, 8)] {
        let mut at = 0;
        for t in 0..threads {
            let (start, end) = share(n, threads, t);
            assert_eq!(start, at);
            at = end;
        }
        assert_eq!(at, n);
    }
}

#[test]
fn a_sweep_moves_the_same_volume_at_every_size() {
    let steps = sweep_steps();
    assert_eq!(steps.len(), 12);
    assert_eq!((steps[0].block_bytes, steps[0].threads, steps[0].reads), (64 << 10, 1, 2048));
    assert_eq!((steps[11].block_bytes, steps[11].threads, steps[11].reads), (12 << 20, 8, 10));
    for s in steps {
        let moved = s.block_bytes * s.reads;
        assert!(moved <= BYTES_PER_THREAD && moved + s.block_bytes > BYTES_PER_THREAD);
    }
    assert_eq!(reads_per_thread(1 << 30), 8);
}

#[test]
fn the_best_trustworthy_sample_is_quoted() {
    let samples = vec![disk(50, 10), disk(2_100, 100), disk(60, 10), disk(120, 20), disk(0, 0)];
    let s = summarise(&samples, 9_000);
    assert_eq!(s.swept_bytes, 2_330);
    assert_eq!(s.cached, 1);
    assert_eq!(s.best, Some(2), "the first of the fastest");
    assert!(s.warmed_itself);
    assert!(!summarise(&samples, 0).warmed_itself);
    assert!(!summarise(&samples, 9_320).warmed_itself);
    assert_eq!(summarise(&vec![disk(2_100, 100)], 0).best, None);
}
