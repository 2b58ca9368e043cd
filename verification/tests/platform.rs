//! What each OS says of itself.

use sift::io::{page_size, Attempt, ExactRead, Step, ASSUMED_PAGE_SIZE, DEST_ALIGN};
use sift::platform::darwin;
use sift::platform::fallback;
use sift::platform::linux::{
    self, discrete_vram, meminfo_field, meminfo_kib, nvidia_smi_mib, parse_nvidia_smi_mib,
    sysfs_vram_bytes,
};
use sift::platform::windows;
use sift::platform::{product_name, usable_ram, AccelMemory, MachineFacts};
use sift::GIB;

const SAMPLE: &str = "\
MemTotal:       16333816 kB
MemFree:          204536 kB
MemAvailable:   12058112 kB
Buffers:            2048 kB
";

#[test]
fn meminfo_fields_are_converted_from_kib_to_bytes() {
    assert_eq!(meminfo_kib(SAMPLE, "MemTotal"), Some(16_333_816 * 1024));
    assert_eq!(meminfo_kib(SAMPLE, "MemAvailable"), Some(12_058_112 * 1024));
}

#[test]
fn a_missing_field_is_none_rather_than_zero() {
    assert_eq!(meminfo_kib(SAMPLE, "Hugepagesize"), None);
}

#[test]
fn mem_available_is_not_confused_with_mem_free() {
    let available = meminfo_kib(SAMPLE, "MemAvailable").unwrap();
    let free = meminfo_kib(SAMPLE, "MemFree").unwrap();
    assert!(available > free * 50, "must not have matched MemFree");
}

#[test]
fn malformed_meminfo_does_not_panic() {
    assert_eq!(meminfo_kib("MemTotal: not-a-number kB", "MemTotal"), None);
    assert_eq!(meminfo_kib("", "MemTotal"), None);
    assert_eq!(meminfo_kib("MemTotal:", "MemTotal"), None);
}

/// What the VRAM files hold of the cards described, those that have one.
fn fake_drm(cards: &[(&str, Option<&str>)]) -> Vec<String> {
    cards.iter().filter_map(|(_, vram)| vram.map(|v| v.to_string())).collect()
}

#[test]
fn amdgpu_vram_is_read_from_the_kernels_own_figure() {
    let files = fake_drm(&[("card0", Some("25753026560\n"))]);
    assert_eq!(sysfs_vram_bytes(&files), Some(25_753_026_560));
}

#[test]
fn connectors_alongside_the_card_are_skipped_rather_than_failing_the_scan() {
    let files = fake_drm(&[
        ("card0-DP-1", None),
        ("card0-HDMI-A-1", None),
        ("card0", Some("17163091968")),
    ]);
    assert_eq!(sysfs_vram_bytes(&files), Some(17_163_091_968));
}

#[test]
fn the_largest_card_wins_rather_than_the_sum() {
    let files = fake_drm(&[("card0", Some("8589934592")), ("card1", Some("25769803776"))]);
    assert_eq!(sysfs_vram_bytes(&files), Some(25_769_803_776));
}

#[test]
fn a_machine_with_no_gpu_reports_nothing_rather_than_zero() {
    let files = fake_drm(&[("card0", Some("0")), ("card1", None)]);
    assert_eq!(sysfs_vram_bytes(&files), None);
    assert_eq!(sysfs_vram_bytes(&vec![]), None);
}

#[test]
fn nvidia_smi_output_is_read_in_mib_and_the_largest_device_wins() {
    assert_eq!(
        parse_nvidia_smi_mib("24564\n"),
        Some(24_564 * 1024 * 1024),
        "a single card"
    );
    assert_eq!(
        parse_nvidia_smi_mib("8192\n24564\n"),
        Some(24_564 * 1024 * 1024),
        "two cards are two pools, not one of 32 GB"
    );
}

#[test]
fn an_unreadable_nvidia_device_is_not_counted_as_empty() {
    assert_eq!(parse_nvidia_smi_mib("[N/A]\n"), None);
    assert_eq!(parse_nvidia_smi_mib(""), None);
    assert_eq!(parse_nvidia_smi_mib("Failed to initialize NVML\n"), None);
    assert_eq!(
        parse_nvidia_smi_mib("[N/A]\n16384\n"),
        Some(16_384 * 1024 * 1024),
        "one bad device must not hide a good one"
    );
}

#[test]
fn the_machine_reports_something_plausible_about_itself() {
    let f = linux::machine_facts(SAMPLE, page_size(4096), 8, None, &vec![], None);
    assert!(f.ram_bytes > 0, "physical RAM must be discoverable");
    assert!(f.cpus >= 1);
    assert!(f.page_bytes.is_power_of_two());
    assert!(
        (4096..=65536).contains(&f.page_bytes),
        "page size {} outside the plausible range",
        f.page_bytes
    );
}

#[test]
fn an_unknown_accelerator_ceiling_yields_no_bytes() {
    assert_eq!(AccelMemory::Unknown.host_ceiling_bytes(), None);
    assert_eq!(AccelMemory::PlatformDefault.host_ceiling_bytes(), None);
    assert_eq!(AccelMemory::Limited { bytes: 42 }.host_ceiling_bytes(), Some(42));
}

#[test]
fn discrete_vram_is_never_offered_as_a_host_memory_ceiling() {
    let card = AccelMemory::Discrete { bytes: 24 * GIB, vendor: "nvidia" };
    assert_eq!(card.host_ceiling_bytes(), None, "VRAM is not host memory");
    assert_eq!(card.vram_bytes(), Some(24 * GIB));
}

#[test]
fn an_apple_wired_limit_is_not_reported_as_vram() {
    let apple = AccelMemory::Limited { bytes: 12 * GIB };
    assert_eq!(apple.vram_bytes(), None);
    assert_eq!(AccelMemory::Unknown.vram_bytes(), None);
}

#[test]
fn adapter_subkeys_are_zero_padded_to_four_digits() {
    assert!(windows::adapter_subkey(0).ends_with("\\0000"));
    assert!(windows::adapter_subkey(7).ends_with("\\0007"));
    assert_eq!(
        windows::adapter_subkey(12345),
        "SYSTEM\\CurrentControlSet\\Control\\Class\\{4d36e968-e325-11ce-bfc1-08002be10318}\\12345"
    );
}

#[test]
fn detection_never_reports_a_host_memory_ceiling() {
    assert_eq!(windows::discrete_vram(&vec![]).host_ceiling_bytes(), None);
    assert_eq!(windows::discrete_vram(&vec![1 << 33, 0]).host_ceiling_bytes(), None);
    assert_eq!(discrete_vram(Some(1), Some(2)).host_ceiling_bytes(), None);
}

#[test]
fn page_size_is_plausible() {
    for reported in [4096, 16384, 65536, 0, -1] {
        let ps = page_size(reported);
        assert!(ps.is_power_of_two(), "page size {ps} should be a power of two");
        assert!((4096..=65536).contains(&ps), "page size {ps} outside expected range");
    }
    assert_eq!(page_size(4096), 4096);
    assert_eq!(page_size(-1), ASSUMED_PAGE_SIZE);
}

// What is proved of all inputs, on a few.

fn facts(ram: u64, available: Option<u64>, accel_memory: AccelMemory) -> MachineFacts {
    MachineFacts {
        ram_bytes: ram,
        available_bytes: available,
        page_bytes: 4096,
        cpus: 8,
        model: None,
        accel_memory,
    }
}

#[test]
fn a_ceiling_binds_first_and_a_card_never_counts() {
    let unknown = AccelMemory::Unknown;
    assert_eq!(usable_ram(&facts(16 * GIB, None, unknown)), 12 * GIB);
    assert_eq!(usable_ram(&facts(16 * GIB, Some(5 * GIB), unknown)), 5 * GIB);
    assert_eq!(usable_ram(&facts(16 * GIB, Some(15 * GIB), unknown)), 12 * GIB);
    assert_eq!(usable_ram(&facts(2 * GIB, None, unknown)), 0);
    let limited = AccelMemory::Limited { bytes: 10 * GIB };
    assert_eq!(usable_ram(&facts(16 * GIB, Some(GIB), limited)), 10 * GIB);
    let card = AccelMemory::Discrete { bytes: 24 * GIB, vendor: "nvidia" };
    assert_eq!(usable_ram(&facts(16 * GIB, None, card)), 12 * GIB);
}

#[test]
fn linux_facts_come_from_its_files() {
    let vram = vec!["8589934592\n".to_string()];
    let f = linux::machine_facts(SAMPLE, 4096, 8, Some(" XPS 13 \n"), &vram, Some("8192\n"));
    assert_eq!(f.ram_bytes, 16_333_816 * 1024);
    assert_eq!(f.available_bytes, Some(12_058_112 * 1024));
    assert_eq!(f.model.as_deref(), Some("XPS 13"));
    assert_eq!(
        f.accel_memory,
        AccelMemory::Discrete { bytes: 8 << 30, vendor: "nvidia" },
        "of two equal devices the later is named"
    );
    let f = linux::machine_facts("", 4096, 8, None, &vram, None);
    assert_eq!((f.ram_bytes, f.available_bytes), (0, None));
    assert_eq!(f.accel_memory, AccelMemory::Discrete { bytes: 8 << 30, vendor: "amdgpu" });
    assert_eq!(discrete_vram(None, None), AccelMemory::Unknown);
    assert_eq!(nvidia_smi_mib(" 16384 \n[N/A]"), Some(16_384));
    assert_eq!(meminfo_field(SAMPLE, "Buffers"), Some(2048));
    assert_eq!(meminfo_field("MemTotalFoo: 1 kB\nMemTotal: 2 kB", "MemTotal"), Some(2));
}

#[test]
fn darwin_facts_come_from_its_sysctls() {
    let f = darwin::machine_facts(Some(16 * GIB), 16384, 10, Some("Mac17,2".to_string()), None);
    assert_eq!(f.accel_memory, AccelMemory::PlatformDefault);
    assert_eq!((f.ram_bytes, f.available_bytes), (16 * GIB, None));
    let f = darwin::machine_facts(None, 16384, 10, None, Some(12288));
    assert_eq!(f.accel_memory, AccelMemory::Limited { bytes: 12 * GIB });
    assert_eq!(f.ram_bytes, 0);
    let f = darwin::machine_facts(None, 16384, 10, None, Some(0));
    assert_eq!(f.accel_memory, AccelMemory::PlatformDefault);
    assert_eq!(darwin::sysctl_string(b"Mac17,2\0\0", 8).as_deref(), Some("Mac17,2"));
    assert_eq!(darwin::sysctl_string(b"\xFF\0", 2), None);
}

#[test]
fn windows_facts_come_from_its_registry() {
    let f = windows::machine_facts(Some((8, 4)), 4096, 2, None, &vec![0, 1 << 33, 1 << 30]);
    assert_eq!((f.ram_bytes, f.available_bytes), (8, Some(4)));
    assert_eq!(f.accel_memory, AccelMemory::Discrete { bytes: 1 << 33, vendor: "display driver" });
    let f = windows::machine_facts(None, 4096, 2, None, &vec![0]);
    assert_eq!((f.ram_bytes, f.available_bytes), (0, None));
    assert_eq!(f.accel_memory, AccelMemory::Unknown);
}

#[test]
fn wide_text_reads_back() {
    for s in ["XPS 13", "Ünïcode \u{1F600}", "a"] {
        let wide = windows::wide(s);
        let expected: Vec<u16> = s.encode_utf16().chain(std::iter::once(0)).collect();
        assert_eq!(wide, expected);
        assert_eq!(windows::system_product_name(&wide).as_deref(), Some(s));
    }
    let mut buf = windows::wide("  Model X  ");
    buf.extend_from_slice(&[65, 66]);
    assert_eq!(windows::system_product_name(&buf).as_deref(), Some("Model X"));
    assert_eq!(windows::system_product_name(&[0xD800, 0]).as_deref(), Some("\u{FFFD}"));
    assert_eq!(windows::system_product_name(&windows::wide("System Product Name")), None);
}

#[test]
fn placeholders_are_no_models() {
    for raw in ["", "  \n", "None", "NONE", "To Be Filled By O.E.M.", "System Product Name"] {
        assert_eq!(product_name(raw), None, "{raw}");
    }
    assert_eq!(product_name("Nonesuch 3\n").as_deref(), Some("Nonesuch 3"));
}

#[test]
fn other_platforms_know_nothing() {
    let f = fallback::machine_facts(4096, 4);
    assert_eq!(usable_ram(&f), 0);
    assert_eq!(fallback::peak_rss_bytes(), 0);
    assert_eq!(linux::peak_rss_bytes(Some(3)), 3 * 1024);
    assert_eq!(linux::peak_rss_bytes(Some(u64::MAX)), u64::MAX);
    assert_eq!(linux::peak_rss_bytes(None), 0);
    assert_eq!(darwin::peak_rss_bytes(Some(3)), 3);
    assert_eq!(windows::peak_rss_bytes(None), 0);
    assert_eq!(DEST_ALIGN, 2 << 20);
}

#[test]
fn reading_past_the_end_is_an_error_not_a_short_read() {
    let mut r = ExactRead::new(200);
    assert_eq!(r.absorb(Attempt::Read(100)), Step::ReadOn);
    assert_eq!(r.absorb(Attempt::Interrupted), Step::ReadOn);
    assert_eq!(r.absorb(Attempt::Read(0)), Step::PastTheEnd);
    assert_eq!(r.done, 100);
    let mut r = ExactRead::new(200);
    assert_eq!(r.absorb(Attempt::Failed), Step::Fail);
    assert_eq!(r.absorb(Attempt::Read(200)), Step::Done);
    assert!(r.is_done());
    assert!(ExactRead::new(0).is_done());
}
