//! Headers that were fetched before.

use sift::cache::{clear, dir, entry_from, key, load, paths, stats, store, CachedFile, Stats};
use sift::json;

#[test]
fn the_key_is_stable_and_filesystem_safe() {
    let k = key("https://huggingface.co/org/repo/resolve/main/model.gguf");
    assert_eq!(k, key("https://huggingface.co/org/repo/resolve/main/model.gguf"));
    assert_eq!(k.len(), 16);
    assert!(k.chars().all(|c| c.is_ascii_hexdigit()));
}

#[test]
fn different_urls_get_different_keys() {
    assert_ne!(key("https://a/x.gguf"), key("https://a/y.gguf"));
}

#[test]
fn caching_is_switched_off_by_the_environment_variable() {
    assert!(dir(true, Some("/home/someone"), None).is_none());
    assert_eq!(
        dir(false, Some("/home/someone"), None).as_deref(),
        Some("/home/someone/.sift/cache/headers")
    );
    assert_eq!(dir(false, None, Some("/users/x")).as_deref(), Some("/users/x/.sift/cache/headers"));
    assert_eq!(dir(false, None, None), None);
}

/// The files of a cache directory holding `n` entries, plus one stray body from an interrupted
/// run.
fn fixture(n: usize) -> Vec<CachedFile> {
    let mut files = Vec::new();
    for i in 0..n {
        files.push(CachedFile { name: format!("{i:016x}.bin"), bytes: Some(1024) });
        files.push(CachedFile { name: format!("{i:016x}.json"), bytes: Some(12) });
    }
    files.push(CachedFile { name: "deadbeef.bin".to_string(), bytes: Some(512) });
    files
}

#[test]
fn entries_are_counted_by_what_can_actually_be_served() {
    let s = stats(&fixture(3));
    assert_eq!(s.entries, 3, "the orphaned body is not a servable entry");
    assert_eq!(s.bytes, 3 * (1024 + 12) + 512, "but its bytes are counted");
}

#[test]
fn clearing_reports_what_it_freed_and_leaves_nothing_behind() {
    let before = stats(&fixture(2));
    let freed = clear(before, true);
    assert_eq!(freed, before, "the report is what was actually there");
    assert_eq!(stats(&vec![]), Stats::default());
}

#[test]
fn clearing_an_absent_cache_is_not_an_error() {
    assert_eq!(stats(&vec![]), Stats::default());
    assert_eq!(clear(stats(&vec![]), false), Stats::default());
}

#[test]
fn an_entry_without_an_etag_is_not_stored() {
    let url = "https://example.invalid/no-etag.gguf";
    assert!(store(url, 4, Some(4), None).is_none());
    let meta = br#"{"url":"https://example.invalid/no-etag.gguf","len":4,"total":4}"#;
    assert!(load(meta, b"body".to_vec()).is_none());
}

// What is proved of all inputs, on a few.

#[test]
fn what_is_stored_loads_again() {
    for (total, etag) in [(Some(9), "\"abc\\\"\u{e9}\n"), (None, ""), (Some(u64::MAX), "x")] {
        let meta = store("https://a/x.gguf", 4, total, Some(etag)).expect("an etag");
        let entry = load(meta.as_bytes(), b"body".to_vec()).expect("a hit");
        assert_eq!(entry.body, b"body");
        assert_eq!(entry.total, total);
        assert_eq!(entry.etag, etag);
        assert!(load(meta.as_bytes(), b"bod".to_vec()).is_none(), "a short body is a miss");
    }
    assert_eq!(
        store("u", 4, Some(9), Some("e")).unwrap(),
        r#"{"etag":"e","len":4,"total":9,"url":"u"}"#
    );
}

#[test]
fn corrupt_metadata_is_a_miss() {
    assert!(load(b"{", b"".to_vec()).is_none());
    let no_len = json::parse(br#"{"etag":"x"}"#).unwrap();
    assert!(entry_from(&no_len, vec![]).is_none());
}

#[test]
fn an_entry_is_two_files() {
    // FNV-1a of the empty text is its offset basis.
    assert_eq!(key(""), "cbf29ce484222325");
    assert_eq!(
        paths("/c", ""),
        ("/c/cbf29ce484222325.bin".to_string(), "/c/cbf29ce484222325.json".to_string())
    );
}
