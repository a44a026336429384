use ohhplayer::clock::format_clock;
use ohhplayer::logger::{ffmpeg_log_entry, global_logs, LogBuffer, MAX_LOG_LINES};
use ohhplayer::overlay::{parse_u64, resident_pages, split_words};

#[test]
fn clock_of_zero() {
    assert_eq!(format_clock(0, 0), "00:00:00 / 00:00:00");
}

#[test]
fn clock_splits_hours_minutes_seconds() {
    assert_eq!(format_clock(3725, 7384), "01:02:05 / 02:03:04");
}

#[test]
fn clock_keeps_long_hours() {
    assert_eq!(format_clock(360_000, 4_294_967_295), "100:00:00 / 1193046:28:15");
}

#[test]
fn log_keeps_last_hundred_messages() {
    let mut log = LogBuffer::new();
    for i in 0..=MAX_LOG_LINES {
        log.push(format!("message {}", i));
    }
    assert_eq!(log.len(), MAX_LOG_LINES);
    assert_eq!(log.line(0), "message 1");
    assert_eq!(log.line(MAX_LOG_LINES - 1), "message 100");
}

#[test]
fn log_below_limit_keeps_all() {
    let mut log = LogBuffer::new();
    log.push("a".to_string());
    log.push("b".to_string());
    assert_eq!(log.len(), 2);
    assert_eq!(log.line(0), "a");
    assert_eq!(log.line(1), "b");
}

#[test]
fn global_logs_created_once() {
    let mut slot: Option<LogBuffer> = None;
    global_logs(&mut slot).push("first".to_string());
    assert!(slot.is_some());
    global_logs(&mut slot).push("second".to_string());
    let log = global_logs(&mut slot);
    assert_eq!(log.len(), 2);
    assert_eq!(log.line(0), "first");
    assert_eq!(log.line(1), "second");
}

#[test]
fn ffmpeg_verbose_messages_dropped() {
    assert_eq!(ffmpeg_log_entry(48, "debug detail"), None);
    assert_eq!(ffmpeg_log_entry(33, "just above info"), None);
}

#[test]
fn ffmpeg_info_message_trimmed_and_prefixed() {
    assert_eq!(
        ffmpeg_log_entry(32, "  Input #0, matroska\n"),
        Some("[ffmpeg] Input #0, matroska".to_string())
    );
    assert_eq!(ffmpeg_log_entry(16, "error"), Some("[ffmpeg] error".to_string()));
}

#[test]
fn ffmpeg_blank_message_dropped() {
    assert_eq!(ffmpeg_log_entry(24, " \t\r\n"), None);
    assert_eq!(ffmpeg_log_entry(24, ""), None);
}

#[test]
fn ffmpeg_unicode_whitespace_trimmed() {
    assert_eq!(
        ffmpeg_log_entry(24, "\u{3000}warn\u{2003}"),
        Some("[ffmpeg] warn".to_string())
    );
}

#[test]
fn words_split_on_any_whitespace() {
    assert_eq!(split_words("  a\tbc \n d "), vec!["a", "bc", "d"]);
    assert!(split_words(" \n ").is_empty());
}

#[test]
fn statm_second_field_read() {
    assert_eq!(resident_pages("1234 567 89 0 0 0 0\n"), Some(567));
}

#[test]
fn statm_too_short_or_bad() {
    assert_eq!(resident_pages("1234"), None);
    assert_eq!(resident_pages("1234 x"), None);
    assert_eq!(resident_pages(""), None);
}

#[test]
fn parse_u64_accepts_plus_and_max() {
    assert_eq!(parse_u64("+5"), Some(5));
    assert_eq!(parse_u64("18446744073709551615"), Some(u64::MAX));
    assert_eq!(parse_u64("007"), Some(7));
}

#[test]
fn parse_u64_rejects() {
    assert_eq!(parse_u64("18446744073709551616"), None);
    assert_eq!(parse_u64("-1"), None);
    assert_eq!(parse_u64("+"), None);
    assert_eq!(parse_u64(""), None);
    assert_eq!(parse_u64("12a"), None);
    assert_eq!(parse_u64("99999999999999999999x"), None);
}

#[test]
fn log_shows_most_recent_after_many() {
    let mut log = LogBuffer::new();
    for i in 0..250 {
        log.push(format!("m{}", i));
    }
    assert_eq!(log.len(), 100);
    for i in 0..100 {
        assert_eq!(log.line(i), &format!("m{}", 150 + i));
    }
}
