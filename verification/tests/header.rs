//! Reading headers piece by piece, and what the cache may serve of them.

use sift::cache::{self, covers, settle, Entry, Served};
use sift::model::gguf::MAGIC;
use sift::model::header::{failure, next_front, HeaderRead, Kind, Step};
use sift::model::remote::{
    conditional_reply, parse_status, parse_validator, Fetched, INITIAL_FETCH,
};
use sift::model::Gguf;

fn put_str(b: &mut Vec<u8>, s: &str) {
    b.extend_from_slice(&(s.len() as u64).to_le_bytes());
    b.extend_from_slice(s.as_bytes());
}

/// A file whose directory is longer than the first fetch: a long string in its metadata.
fn large_file() -> Vec<u8> {
    let mut b = Vec::new();
    b.extend_from_slice(&MAGIC.to_le_bytes());
    b.extend_from_slice(&3u32.to_le_bytes());
    b.extend_from_slice(&0u64.to_le_bytes());
    b.extend_from_slice(&1u64.to_le_bytes());
    put_str(&mut b, "general.architecture");
    b.extend_from_slice(&8u32.to_le_bytes());
    put_str(&mut b, &"x".repeat(INITIAL_FETCH as usize + 10));
    b
}

#[test]
fn a_directory_longer_than_the_first_fetch_takes_a_second() {
    let file = large_file();
    let mut head = HeaderRead::new("http://h/f".to_string());
    let mut ends = Vec::new();
    let g: Gguf = loop {
        match head.gguf() {
            Step::Done(g) => break g,
            Step::Fetch { end } => {
                ends.push(end);
                let upto = (end as usize + 1).min(file.len());
                head.absorb(file[..upto].to_vec(), Some(file.len() as u64));
            }
            Step::Failed(why) => panic!("{why}"),
        }
    };
    assert_eq!(ends, [INITIAL_FETCH - 1, 2 * INITIAL_FETCH - 1]);
    // The remote file reads as the local one does.
    let local = Gguf::parse(&file).expect("a directory");
    assert_eq!(g.architecture(), local.architecture());
    assert_eq!(head.bytes_fetched(), INITIAL_FETCH + file.len() as u64);
}

#[test]
fn a_file_that_ends_early_is_not_asked_for_again() {
    let file = large_file();
    let mut head = HeaderRead::new("http://h/f".to_string());
    // The server does not state a size, and sends ten bytes however much is asked for.
    let mut fetches = 0;
    let why = loop {
        match head.gguf() {
            Step::Done(_) => panic!("ten bytes are no directory"),
            Step::Fetch { .. } => {
                fetches += 1;
                head.absorb(file[..10].to_vec(), None);
            }
            Step::Failed(why) => break why,
        }
    };
    assert_eq!(why, "io error: failed to fill whole buffer");
    assert!(fetches <= 4, "{fetches}");
}

#[test]
fn a_header_beyond_the_ceiling_is_refused() {
    // A safetensors header that claims to be larger than is ever fetched.
    let mut b = (200u64 << 20).to_le_bytes().to_vec();
    b.extend_from_slice(b"{");
    let mut head = HeaderRead::new("http://h/f".to_string());
    assert!(matches!(head.safetensors(), Step::Fetch { .. }));
    head.absorb(b, Some(1 << 40));
    match head.safetensors() {
        Step::Failed(why) => {
            assert!(why.starts_with("reading safetensors header: refusing to fetch "), "{why}")
        }
        other => panic!("expected a refusal, got {other:?}"),
    }
}

#[test]
fn what_is_no_header_is_refused_for_what_it_is() {
    let mut head = HeaderRead::new("http://h/f".to_string());
    assert!(matches!(head.gguf(), Step::Fetch { .. }));
    head.absorb(b"<!doctype html><html>not found</html>".to_vec(), Some(38));
    match head.gguf() {
        Step::Failed(why) => assert!(why.starts_with("not a GGUF file: magic was 0x"), "{why}"),
        other => panic!("expected a refusal, got {other:?}"),
    }
    assert_eq!(failure(Kind::Gguf, "gone"), "io error: gone");
}

#[test]
fn a_local_front_grows_to_what_is_needed() {
    assert_eq!(next_front(100, 150, 1000), Some(200));
    assert_eq!(next_front(100, 350, 1000), Some(350));
    assert_eq!(next_front(600, 700, 1000), Some(1000));
    assert_eq!(next_front(600, 1001, 1000), None);
    assert_eq!(next_front(u64::MAX - 1, u64::MAX, u64::MAX), Some(u64::MAX));
}

const REDIRECTED: &str = "HTTP/2 302\r\nX-Linked-ETag: \"file\"\r\netag: \"hop\"\r\n\r\nHTTP/2 206\r\nContent-Range: bytes 0-3/5000\r\nETag: \"cdn\"\r\n\r\n";

#[test]
fn the_validator_is_the_files_own_not_that_of_the_cdn() {
    assert_eq!(parse_validator(REDIRECTED).as_deref(), Some("\"file\""));
    assert_eq!(parse_validator("HTTP/1.1 200 OK\r\netag:  W/\"a\" \r\n").as_deref(), Some("W/\"a\""));
    assert_eq!(parse_validator("HTTP/1.1 200 OK\r\n"), None);
}

#[test]
fn the_status_is_the_last_one() {
    assert_eq!(parse_status(REDIRECTED), Some(206));
    assert_eq!(parse_status("HTTP/2 304\r\n\r\n"), Some(304));
    assert_eq!(parse_status("HTTP/2\r\n"), None);
    assert_eq!(parse_status(""), None);
}

#[test]
fn a_conditional_answer_is_read_whole() {
    let mut raw = REDIRECTED.as_bytes().to_vec();
    raw.extend_from_slice(b"GGUF");
    let f = conditional_reply("u", true, &raw, b"").expect("an answer");
    assert_eq!(
        f,
        Fetched {
            body: b"GGUF".to_vec(),
            total: Some(5000),
            status: Some(206),
            etag: Some("\"file\"".to_string()),
        }
    );
    assert_eq!(
        conditional_reply("u", false, b"", b" no route \n").expect_err("a failure"),
        "fetching u: no route"
    );
}

fn entry(len: usize, total: Option<u64>) -> Entry {
    Entry { body: vec![7; len], total, etag: "\"e\"".to_string() }
}

fn reply(status: Option<u64>) -> Fetched {
    Fetched { body: vec![1, 2], total: None, status, etag: None }
}

#[test]
fn nothing_is_served_on_trust() {
    assert_eq!(
        settle(Some(entry(9, None)), reply(Some(304))),
        Served::Held(entry(9, None))
    );
    assert_eq!(
        settle(Some(entry(9, None)), reply(Some(206))),
        Served::Fresh(reply(Some(206)))
    );
    assert_eq!(settle(Some(entry(9, None)), reply(None)), Served::Fresh(reply(None)));
    assert_eq!(settle(None, reply(Some(304))), Served::Fresh(reply(Some(304))));
}

#[test]
fn an_entry_that_is_too_short_is_not_revalidated() {
    assert!(covers(&entry(10, None), 9));
    assert!(!covers(&entry(10, None), 10));
    assert!(!covers(&entry(10, Some(20)), 10));
    // The whole file is enough, however much was asked for.
    assert!(covers(&entry(10, Some(10)), 1 << 20));
}

#[test]
fn a_restored_front_counts_as_nothing_fetched() {
    let file = large_file();
    let meta = cache::store("http://h/f", file.len() as u64, Some(file.len() as u64), Some("e"))
        .expect("metadata");
    let held = cache::load(meta.as_bytes(), file).expect("an entry");
    let mut head = HeaderRead::new("http://h/f".to_string());
    head.restore(held.body, held.total);
    assert!(matches!(head.gguf(), Step::Done(_)));
    assert_eq!(head.bytes_fetched(), 0);
    assert_eq!(head.url(), "http://h/f");
}

#[test]
fn a_header_states_what_its_tensors_take() {
    let header = br#"{"a":{"dtype":"F16","shape":[4,2],"data_offsets":[0,16]}}"#;
    let mut b = (header.len() as u64).to_le_bytes().to_vec();
    b.extend_from_slice(header);
    let mut head = HeaderRead::new("u".to_string());
    head.absorb(b, None);
    match head.safetensors() {
        Step::Done(st) => assert_eq!(st.total_bytes, 16),
        other => panic!("not read: {other:?}"),
    }
}
