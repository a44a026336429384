use ohhplayer::history::{parse_history, record_history, recent_file_name, serialize_history, MAX_HISTORY};
use ohhplayer::positions::{PositionBook, EVICTED_POSITIONS, MAX_POSITIONS};

fn strings(v: &[&str]) -> Vec<String> {
    v.iter().map(|s| s.to_string()).collect()
}

#[test]
fn history_lines_skip_empty_and_crlf() {
    assert_eq!(parse_history("a\nb\r\n\nc"), strings(&["a", "b", "c"]));
    assert_eq!(parse_history("x\n"), strings(&["x"]));
    assert_eq!(parse_history(""), Vec::<String>::new());
}

#[test]
fn history_lone_carriage_return_kept() {
    assert_eq!(parse_history("x\r"), strings(&["x\r"]));
    assert_eq!(parse_history("\r\n"), Vec::<String>::new());
}

#[test]
fn history_serialized_with_line_feeds() {
    assert_eq!(serialize_history(&strings(&["/a.mp4", "/b.mkv"])), "/a.mp4\n/b.mkv");
    assert_eq!(serialize_history(&Vec::new()), "");
}

#[test]
fn history_round_trip() {
    let h = strings(&["/v/one.mp4", "/v/two words.mkv", "rel/three.webm"]);
    assert_eq!(parse_history(&serialize_history(&h)), h);
}

#[test]
fn opened_file_moves_to_front() {
    let h = strings(&["/a", "/b", "/c"]);
    assert_eq!(record_history(&h, "/b"), strings(&["/b", "/a", "/c"]));
    assert_eq!(record_history(&h, "/d"), strings(&["/d", "/a", "/b", "/c"]));
}

#[test]
fn history_capped() {
    let h: Vec<String> = (0..MAX_HISTORY).map(|i| format!("/f{}", i)).collect();
    let r = record_history(&h, "/new");
    assert_eq!(r.len(), MAX_HISTORY);
    assert_eq!(r[0], "/new");
    assert_eq!(r[1], "/f0");
    assert_eq!(r[MAX_HISTORY - 1], format!("/f{}", MAX_HISTORY - 2));
}

#[test]
fn saved_history_reads_back() {
    let h = strings(&["/x", "/y"]);
    let r = record_history(&h, "/y");
    assert_eq!(parse_history(&serialize_history(&r)), strings(&["/y", "/x"]));
}

#[test]
fn recent_name_is_file_name() {
    assert_eq!(recent_file_name("/home/me/videos/clip.mp4"), "clip.mp4");
    assert_eq!(recent_file_name("clip.mkv"), "clip.mkv");
    assert_eq!(recent_file_name("/home/me/videos/"), "videos");
}

#[test]
fn recent_name_empty_without_file_name() {
    assert_eq!(recent_file_name("/home/.."), "");
    assert_eq!(recent_file_name("/"), "");
    assert_eq!(recent_file_name(""), "");
}

#[test]
fn position_read_back() {
    let mut book: PositionBook<f64> = PositionBook::new();
    assert!(book.record("/a.mp4", 12.5));
    assert_eq!(book.get("/a.mp4"), Some(&12.5));
    assert_eq!(book.get("/b.mp4"), None);
}

#[test]
fn position_replaced_in_place() {
    let mut book: PositionBook<f64> = PositionBook::new();
    book.record("/a", 1.0);
    book.record("/b", 2.0);
    book.record("/a", 3.0);
    assert_eq!(book.len(), 2);
    assert_eq!(book.entry(0), (&"/a".to_string(), &3.0));
    assert_eq!(book.get("/b"), Some(&2.0));
}

#[test]
fn empty_path_not_recorded() {
    let mut book: PositionBook<f64> = PositionBook::new();
    assert!(!book.record("", 5.0));
    assert_eq!(book.len(), 0);
}

#[test]
fn oldest_positions_evicted() {
    let mut book: PositionBook<u32> = PositionBook::new();
    for i in 0..MAX_POSITIONS {
        book.record(&format!("/f{}", i), i as u32);
    }
    assert_eq!(book.len(), MAX_POSITIONS);
    book.record("/new", 7);
    assert_eq!(book.len(), MAX_POSITIONS + 1 - EVICTED_POSITIONS);
    assert_eq!(book.get("/new"), Some(&7));
    assert_eq!(book.get("/f0"), None);
    assert_eq!(book.get("/f19"), None);
    assert_eq!(book.get("/f20"), Some(&20));
    assert_eq!(book.get("/f99"), Some(&99));
}

#[test]
fn opening_twice_same_as_once() {
    let h = strings(&["/a", "/b", "/c"]);
    let once = record_history(&h, "/c");
    let twice = record_history(&once, "/c");
    assert_eq!(twice, once);
    assert_eq!(parse_history(&serialize_history(&twice)), strings(&["/c", "/a", "/b"]));
}

#[test]
fn trailing_carriage_return_on_last_line_survives_saves() {
    let loaded = parse_history("/a\n/b\r");
    assert_eq!(loaded, strings(&["/a", "/b\r"]));
    let once = parse_history(&serialize_history(&record_history(&loaded, "/c")));
    assert_eq!(once, strings(&["/c", "/a", "/b\r"]));
    let twice = parse_history(&serialize_history(&record_history(&once, "/c")));
    assert_eq!(twice, once);
}
