//! Reading a remote file a range request at a time.

use sift::model::remote::{
    no_size_message, parse_content_range_total, range_reply, split_headers, Plan, SeekTo, Seeked,
    INITIAL_FETCH, MAX_FETCH,
};
use sift::model::{hf_url, RemoteFile};

#[test]
fn content_range_total_is_parsed() {
    let h = "HTTP/2 206\r\ncontent-range: bytes 0-1023/5242880\r\n\r\n";
    assert_eq!(parse_content_range_total(h), Some(5_242_880));
}

#[test]
fn content_range_is_matched_case_insensitively() {
    let h = "HTTP/1.1 206\r\nContent-Range: bytes 0-99/12345\r\n\r\n";
    assert_eq!(parse_content_range_total(h), Some(12_345));
}

#[test]
fn a_missing_content_range_yields_no_size() {
    assert_eq!(parse_content_range_total("HTTP/2 200\r\n\r\n"), None);
}

#[test]
fn an_unsatisfiable_range_star_is_not_read_as_a_size() {
    let h = "HTTP/2 416\r\ncontent-range: bytes */1234\r\n\r\n";
    assert_eq!(parse_content_range_total(h), Some(1234));
}

#[test]
fn headers_split_at_the_last_blank_line_so_redirects_do_not_confuse_it() {
    let raw = b"HTTP/2 302\r\nlocation: /x\r\n\r\nHTTP/2 206\r\ncontent-range: bytes 0-3/99\r\n\r\nBODY";
    let (headers, body) = split_headers(raw);
    assert_eq!(body, b"BODY");
    assert!(headers.contains("206"), "final header block must be retained");
    assert_eq!(parse_content_range_total(&headers), Some(99));
}

#[test]
fn a_response_without_headers_is_all_body() {
    let (headers, body) = split_headers(b"just body");
    assert!(headers.is_empty());
    assert_eq!(body, b"just body");
}

#[test]
fn hf_urls_are_built_in_the_resolve_form() {
    assert_eq!(
        hf_url("allenai/OLMoE-1B-7B-0924-Instruct-GGUF", "olmoe-q4.gguf"),
        "https://huggingface.co/allenai/OLMoE-1B-7B-0924-Instruct-GGUF/resolve/main/olmoe-q4.gguf"
    );
}

fn remote() -> RemoteFile {
    RemoteFile::new("https://example.invalid/x.gguf".to_string())
}

#[test]
fn seeking_before_the_start_is_rejected() {
    let mut f = remote();
    assert_eq!(f.seek(SeekTo::Current(-1)), Seeked::BeforeStart);
}

#[test]
fn seeking_forward_does_not_fetch_on_its_own() {
    let mut f = remote();
    assert_eq!(f.seek(SeekTo::Start(1_000_000)), Seeked::At(1_000_000));
    assert_eq!(f.bytes_fetched(), 0);
}

#[test]
fn a_zero_length_read_is_not_an_error_and_fetches_nothing() {
    let mut f = remote();
    assert_eq!(f.plan_read(0), Plan::Ready);
    assert_eq!(f.take(0).len(), 0);
    assert_eq!(f.bytes_fetched(), 0);
}

// What is proved of all inputs, on a few.

#[test]
fn the_first_fetch_is_a_megabyte_and_then_it_doubles() {
    let mut f = remote();
    assert_eq!(f.plan_read(4), Plan::Fetch { end: INITIAL_FETCH - 1 });
    f.absorb(vec![7; INITIAL_FETCH as usize], Some(10 * INITIAL_FETCH));
    assert_eq!(f.bytes_fetched(), INITIAL_FETCH);
    assert_eq!(f.total_size(), Some(10 * INITIAL_FETCH));
    assert_eq!(f.plan_read(4), Plan::Ready);
    assert_eq!(f.reach(INITIAL_FETCH + 1), Plan::Fetch { end: 2 * INITIAL_FETCH - 1 });
    assert_eq!(f.reach(3 * INITIAL_FETCH), Plan::Fetch { end: 4 * INITIAL_FETCH - 1 });
}

#[test]
fn what_is_held_is_read_without_a_fetch() {
    let mut f = remote();
    f.absorb(vec![1, 2, 3, 4], Some(4));
    assert_eq!(f.take(2), [1, 2]);
    assert_eq!(f.take(5), [3, 4]);
    assert_eq!(f.take(1).len(), 0);
    assert_eq!(f.seek(SeekTo::End(-1)), Seeked::At(3));
    assert_eq!(f.take(1), [4]);
    assert_eq!(f.seek(SeekTo::Current(-2)), Seeked::At(2));
    assert_eq!(f.held(), [1, 2, 3, 4]);
    assert_eq!(f.plan_read(100), Plan::Ready, "the whole file is held");
}

#[test]
fn an_enormous_directory_is_refused() {
    let f = remote();
    match f.reach(MAX_FETCH + 1) {
        Plan::Refuse(why) => {
            assert!(why.starts_with("refusing to fetch "), "{why}");
            assert!(why.contains("https://example.invalid/x.gguf"), "{why}");
        }
        other => panic!("not refused: {other:?}"),
    }
}

#[test]
fn the_end_needs_a_size() {
    let mut f = remote();
    assert_eq!(f.seek(SeekTo::End(0)), Seeked::NeedsSize);
    assert_eq!(
        no_size_message(f.url()),
        "https://example.invalid/x.gguf did not report a size, so SeekFrom::End is unavailable"
    );
}

#[test]
fn a_reply_is_its_body_and_its_size() {
    let raw = b"HTTP/2 206\r\ncontent-range: bytes 0-3/99\r\n\r\nBODY";
    assert_eq!(range_reply("u", true, raw, b""), Ok((b"BODY".to_vec(), Some(99))));
    assert_eq!(range_reply("u", true, b"BODY", b""), Ok((b"BODY".to_vec(), None)));
    assert_eq!(
        range_reply("u", false, b"", b" curl: no\n").unwrap_err(),
        "fetching u: curl: no"
    );
    assert_eq!(range_reply("u", false, b"", b"").unwrap_err(), "fetching u: curl failed");
}

#[test]
fn a_body_keeps_its_own_blank_lines() {
    let raw = b"HTTP/1.1 206 Partial Content\r\ncontent-range: bytes 0-5/99\r\n\r\nA\r\n\r\nB";
    assert_eq!(range_reply("u", true, raw, b""), Ok((b"A\r\n\r\nB".to_vec(), Some(99))));
    // A header inside the body is not one of the answer's.
    let raw = b"HTTP/2 200\r\n\r\ncontent-range: bytes 0-1/7\r\n\r\nB";
    assert_eq!(
        range_reply("u", true, raw, b""),
        Ok((b"content-range: bytes 0-1/7\r\n\r\nB".to_vec(), None))
    );
    assert_eq!(range_reply("u", true, b"A\r\n\r\nB", b""), Ok((b"A\r\n\r\nB".to_vec(), None)));
}

#[test]
fn hops_before_the_answer_are_passed() {
    let raw = b"HTTP/1.1 100 Continue\r\n\r\nHTTP/2 302\r\nlocation: /x\r\n\r\nHTTP/2 206\r\ncontent-range: bytes 0-5/99\r\n\r\n\r\n\r\nHTTP/2 302";
    assert_eq!(
        range_reply("u", true, raw, b""),
        Ok((b"\r\n\r\nHTTP/2 302".to_vec(), Some(99)))
    );
    // A file that was not modified is an answer, though its status is in the three hundreds.
    let raw = b"HTTP/2 304\r\netag: x\r\n\r\n";
    assert_eq!(range_reply("u", true, raw, b""), Ok((Vec::new(), None)));
}

#[test]
fn reads_give_the_bytes_of_the_file() {
    let file: Vec<u8> = (0..3_000_000u32).map(|i| (i * 7 % 251) as u8).collect();
    let mut f = remote();
    for (pos, n) in [(10u64, 20usize), (1_500_000, 64), (2_999_990, 64), (3_000_000, 5)] {
        assert_eq!(f.seek(SeekTo::Start(pos)), Seeked::At(pos));
        if let Plan::Fetch { end } = f.plan_read(n) {
            let upto = file.len().min(end as usize + 1);
            f.absorb(file[..upto].to_vec(), Some(file.len() as u64));
        }
        let start = pos as usize;
        assert_eq!(f.take(n), file[start..file.len().min(start + n)]);
    }
}
