use rigg_voice::text::{is_whitespace, join, parse_number, transcript, transcript_of, trim};

#[test]
fn white_space_is_unicode_white_space() {
    for n in 0..=0x10FFFFu32 {
        if let Some(c) = char::from_u32(n) {
            assert_eq!(is_whitespace(c), c.is_whitespace(), "U+{:04X}", n);
        }
    }
}

#[test]
fn trimming_strips_both_ends() {
    for s in ["", " ", "\t\n ", "a", " a ", "  two words\u{3000}", "\u{a0}\u{85}x y\u{2028}", "olá mundo \r\n"] {
        assert_eq!(trim(s), s.trim());
        assert_eq!(trim(&trim(s)), trim(s));
    }
}

#[test]
fn segments_make_a_transcript() {
    let segments = vec![" Hello".to_string(), " world. ".to_string(), "".to_string(), "Again ".to_string()];
    assert_eq!(transcript(&segments), "Hello world. Again");
    assert_eq!(transcript(&Vec::new()), "");
    assert_eq!(transcript(&vec!["  ".to_string(), "\n".to_string()]), "");
}

#[test]
fn one_unreadable_segment_fails_the_transcript() {
    let ok = |s: &str| Ok::<String, String>(s.to_string());
    let bad = |s: &str| Err::<String, String>(s.to_string());
    assert_eq!(transcript_of(vec![ok(" a"), ok(" b ")]), ok("a b"));
    assert_eq!(transcript_of(Vec::new()), ok(""));
    assert_eq!(transcript_of(vec![ok("a"), bad("x"), ok("b"), bad("y")]), bad("x"));
    assert_eq!(transcript_of(vec![bad("x"), ok("b")]), bad("x"));
    assert_eq!(transcript_of(vec![ok("a"), bad("y")]), bad("y"));
}

#[test]
fn joining_keeps_both_parts() {
    assert_eq!(join("download failed: ", "timeout"), "download failed: timeout");
}

#[test]
fn numbers_are_read_like_header_values() {
    for s in [
        "", "+", "-", "0", "+0", "-0", "00", "7", "147951465", "+1533763059", "18446744073709551615",
        "18446744073709551616", "99999999999999999999", "000000000000000000000000000001", " 1", "1 ", "1_0",
        "0x10", "1.5", "++1", "+-1", "١", "12a",
    ] {
        assert_eq!(parse_number(s), s.parse::<u64>().ok(), "{:?}", s);
    }
}
