use ohhplayer::history::{file_name, parse_history};
use ohhplayer::overlay::{parse_u64, split_words};
use ohhplayer::text::{char_is_whitespace, trim};

const PATHS: &[&str] = &[
    "", "/", "//", ".", "..", "./", "a", "a/", "a//", "/a/b", "/a/b/", "/a/b/.", "/a/b/..",
    "./x", "x/./y", "a/../b", "/.hidden", "dir/..", "...", "a/...", "/v/clip one.mp4",
    "/v/クリップ.mkv",
];

const TEXTS: &[&str] = &[
    "", " ", "a", " a ", "\t a b \n", "\u{3000}x\u{2003}", "\u{85}y\u{a0}", "a\u{200b}",
    "  multiple   words\there  ", "\r\n", "x\r", "line1\nline2\r\n\nline3", "\n\n", "a\rb\nc",
];

#[test]
fn file_name_matches_std_path() {
    for p in PATHS {
        let expected = std::path::Path::new(p).file_name().map(|n| n.to_string_lossy().into_owned());
        assert_eq!(file_name(p), expected, "path {:?}", p);
    }
}

#[test]
fn trim_matches_std_trim() {
    for t in TEXTS {
        assert_eq!(trim(t), t.trim(), "text {:?}", t);
    }
}

#[test]
fn split_words_matches_std_split_whitespace() {
    for t in TEXTS {
        let expected: Vec<&str> = t.split_whitespace().collect();
        assert_eq!(split_words(t), expected, "text {:?}", t);
    }
}

#[test]
fn history_parse_matches_std_lines() {
    for t in TEXTS {
        let expected: Vec<String> = t.lines().filter(|s| !s.is_empty()).map(|s| s.to_string()).collect();
        assert_eq!(parse_history(t), expected, "text {:?}", t);
    }
}

#[test]
fn parse_u64_matches_std_parse() {
    for t in &["0", "+0", "42", "+", "-0", "-1", " 1", "1 ", "１", "18446744073709551615",
        "18446744073709551616", "000000000000000000000000001", "+-1", "++1", "", "9a"] {
        assert_eq!(parse_u64(t), t.parse::<u64>().ok(), "text {:?}", t);
    }
}

#[test]
fn whitespace_matches_std_for_every_char() {
    for code in 0u32..=0x10FFFF {
        if let Some(c) = char::from_u32(code) {
            assert_eq!(char_is_whitespace(c), c.is_whitespace(), "char U+{:04X}", code);
        }
    }
}
