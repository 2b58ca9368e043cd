//! Text, JSON and order.

use sift::calibrate::{models, ModelFile};
use sift::json::{self, Json};
use sift::text;

fn chars(s: &str) -> Vec<char> {
    s.chars().collect()
}

#[test]
fn json_is_read_as_it_stands() {
    let j = json::parse(br#"{"b":[1,-2,1.5,true,null,"x"],"a":{"k":18446744073709551615}}"#)
        .expect("JSON");
    assert_eq!(j.get("a").and_then(|a| a.get_u64("k")), Some(u64::MAX));
    let b = j.get("b").expect("b");
    assert_eq!(b.at(0), Some(&Json::Uint(1)));
    assert_eq!(b.at(1), Some(&Json::Number("-2".to_string())));
    assert_eq!(b.at(2), Some(&Json::Number("1.5".to_string())));
    assert_eq!(b.at(3), Some(&Json::Bool(true)));
    assert_eq!(b.at(4), Some(&Json::Null));
    assert_eq!(b.at(5).and_then(|x| x.as_str()), Some("x"));
    assert_eq!(b.at(6), None);
    assert_eq!(j.get("c"), None);
    assert!(json::parse(b"{").is_err());
}

#[test]
fn json_is_written_compactly() {
    let v = Json::Object(vec![
        ("a".to_string(), Json::Array(vec![Json::Uint(1), Json::Null, Json::Bool(false)])),
        ("b".to_string(), Json::Number("0.0".to_string())),
        ("c".to_string(), Json::Str("\"q\"".to_string())),
    ]);
    assert_eq!(json::render(v), r#"{"a":[1,null,false],"b":0.0,"c":"\"q\""}"#);
}

#[test]
fn a_member_is_noted_as_it_is_written() {
    let (j, noted) = json::parse_noting(br#"{"e": {"z": 2.50, "a": 1}}"#, "e").expect("JSON");
    assert_eq!(noted.as_deref(), Some(r#"{"a":1,"z":2.5}"#));
    assert!(j.get("e").is_some());
    let (_, noted) = json::parse_noting(br#"{"x":1}"#, "e").expect("JSON");
    assert_eq!(noted, None);
    let (_, noted) = json::parse_noting(b"[1]", "e").expect("JSON");
    assert_eq!(noted, None);
}

#[test]
fn lines_are_split_as_everywhere() {
    for s in ["", "a", "a\n", "a\nb", "a\r\nb\r\n", "\n\n", "a\rb\n"] {
        let ours: Vec<String> =
            text::lines_of(&chars(s)).iter().map(|l| l.iter().collect()).collect();
        let theirs: Vec<String> = s.lines().map(|l| l.to_string()).collect();
        assert_eq!(ours, theirs, "{s:?}");
    }
}

#[test]
fn numbers_are_read_as_everywhere() {
    for s in ["0", "7", "+7", "-7", "", "+", "18446744073709551615", "18446744073709551616", "1_0"] {
        assert_eq!(text::parse_number(&chars(s), u64::MAX), s.parse::<u64>().ok(), "{s:?}");
    }
    for n in [0, 9, 10, 12345, u64::MAX] {
        assert_eq!(text::decimal_string(n), n.to_string());
    }
}

#[test]
fn blanks_are_trimmed_as_everywhere() {
    for s in ["", " a ", "\u{a0}x\u{3000}", "a b", "\t\n", "\u{200b}x"] {
        let ours: String = text::trimmed(&chars(s)).iter().collect();
        assert_eq!(ours, s.trim(), "{s:?}");
        let word: Option<String> = text::word(&chars(s)).map(|w| w.iter().collect());
        assert_eq!(word.as_deref(), s.split_whitespace().next(), "{s:?}");
    }
}

#[test]
fn paths_are_joined() {
    assert_eq!(text::join_under("/a", "b"), "/a/b");
    assert_eq!(text::join_under("/a/", "b"), "/a/b");
    let ext = |s: &str| -> Option<String> {
        text::extension_of(&chars(s)).map(|e| e.iter().collect())
    };
    for s in ["a.gguf", "a.b.c", ".hidden", "plain", "dot."] {
        let theirs = std::path::Path::new(s).extension().map(|e| e.to_string_lossy().to_string());
        assert_eq!(ext(s), theirs, "{s:?}");
    }
}

#[test]
fn pieces_join_to_what_they_came_from() {
    for s in ["a-b-c", "", "-", "abc", "--x"] {
        let pieces = text::pieces(&chars(s), '-');
        assert_eq!(pieces.len(), s.split('-').count());
        let joined: String = text::joined(&pieces, 0, &['-']).iter().collect();
        assert_eq!(joined, s);
    }
}

#[test]
fn sorting_is_stable() {
    let file = |p: &str, size: u64| ModelFile { path: p.to_string(), size };
    let sorted = models(vec![file("x", 1), file("y", 1), file("z", 2), file("w", 1)]);
    let order: String = sorted.iter().map(|f| f.path.as_str()).collect();
    assert_eq!(order, "zxyw");
}

#[test]
fn bytes_are_read_as_the_text_they_encode() {
    assert_eq!(sift::text::decoded("größer — ok".as_bytes()), "größer — ok");
    assert_eq!(sift::text::decoded(b"a\xffb"), "a\u{fffd}b");
    assert_eq!(sift::text::decoded(b""), "");
}
