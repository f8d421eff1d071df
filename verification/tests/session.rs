use mp3_downloader_gui::session::{finish_message, log_line, log_timestamp_at, task_source_label, Session};
use mp3_downloader_gui::types::{DownloadSource, OutputMode, ParseResult, TrackInfo, YtDlpFormat, MAX_LOG_LINES};

fn track(id: &str, artist: &str, title: &str) -> TrackInfo {
    TrackInfo {
        id: id.to_string(),
        artist: artist.to_string(),
        title: title.to_string(),
        url: format!("https://example.com/{}", id),
    }
}

#[test]
fn timestamp_is_utc_clock() {
    assert_eq!(log_timestamp_at(0), "00:00:00");
    assert_eq!(log_timestamp_at(3661), "01:01:01");
    assert_eq!(log_timestamp_at(86399), "23:59:59");
    assert_eq!(log_timestamp_at(86400 + 45), "00:00:45");
    assert_eq!(log_line("12:00:00", "привет"), "[12:00:00] привет");
}

#[test]
fn finish_messages_agree_with_count() {
    assert_eq!(finish_message(1, 0, &None), "✅ Готово — 1 трек");
    assert_eq!(finish_message(3, 0, &None), "✅ Готово — 3 трека");
    assert_eq!(finish_message(5, 0, &None), "✅ Готово — 5 треков");
    assert_eq!(finish_message(11, 0, &None), "✅ Готово — 11 треков");
    assert_eq!(finish_message(2, 1, &None), "✅ 2 трека (ошибок: 1)");
    assert_eq!(finish_message(0, 2, &Some("сбой".to_string())), "❌ сбой");
    assert_eq!(finish_message(0, 1, &None), "❌ Ошибка");
    assert_eq!(finish_message(0, 0, &None), "✅ Готово — 0 треков");
}

#[test]
fn task_labels() {
    assert_eq!(task_source_label(DownloadSource::YtDlp, Some(YtDlpFormat::Mp3)), "YouTube MP3");
    assert_eq!(task_source_label(DownloadSource::YtDlp, Some(YtDlpFormat::Mp4)), "YouTube MP4");
    assert_eq!(task_source_label(DownloadSource::YtDlp, None), "YouTube");
    assert_eq!(task_source_label(DownloadSource::Mp3Party, Some(YtDlpFormat::Mp3)), "MP3Party");
    assert_eq!(task_source_label(DownloadSource::PesniMe, None), "Pesni.me");
}

#[test]
fn log_keeps_newest_lines_only() {
    let mut s = Session::new("start".to_string());
    for i in 0..(MAX_LOG_LINES + 5) {
        s.push_log_line(format!("line {}", i));
    }
    assert_eq!(s.log_lines.len(), MAX_LOG_LINES);
    assert_eq!(s.log_lines.last().unwrap(), &format!("line {}", MAX_LOG_LINES + 4));
    assert_eq!(s.log_lines[0], "line 5");
}

#[test]
fn job_progress_and_finish() {
    let mut s = Session::new("start".to_string());
    s.begin_job(OutputMode::UrlParsing, 3, "⏳ Импорт 3 ссылок...".to_string());
    assert!(s.loading);
    s.on_parse_result(ParseResult::Success(track("1", "A", "a")), "10:00:00");
    assert_eq!(s.status, "⏳ 1/3");
    s.on_parse_result(ParseResult::Error("x".to_string(), "плохо".to_string()), "10:00:01");
    assert_eq!(s.status, "⏳ 2/3");
    s.on_parse_result(ParseResult::Success(track("2", "B", "b")), "10:00:02");
    assert!(!s.loading);
    assert_eq!(s.status, "✅ 2 трека (ошибок: 1)");
    assert_eq!(s.log_lines.last().unwrap(), "[10:00:02] ✅ 2 трека (ошибок: 1)");
}

#[test]
fn search_results_accumulate_without_repeated_ids() {
    let mut s = Session::new("start".to_string());
    s.begin_job(OutputMode::Search, 2, "⏳".to_string());
    s.on_parse_result(
        ParseResult::SearchResults(vec![track("1", "A", "a"), track("2", "B", "b")]),
        "10:00:00",
    );
    s.on_parse_result(
        ParseResult::SearchResults(vec![track("2", "B", "b"), track("3", "C", "c"), track("3", "C", "c")]),
        "10:00:01",
    );
    let ids: Vec<&str> = s.tracks.iter().map(|t| t.id.as_str()).collect();
    assert_eq!(ids, vec!["1", "2", "3"]);
    assert_eq!(s.status, "✅ Готово — 3 трека");
}

#[test]
fn cancel_and_watchdog() {
    let mut s = Session::new("start".to_string());
    s.begin_job(OutputMode::Search, 1, "⏳".to_string());
    s.check_loading_watchdog(Some(30), "00:00:30");
    assert!(s.loading);
    s.check_loading_watchdog(Some(90), "00:01:30");
    assert!(!s.loading);
    assert_eq!(s.error_count, 1);
    assert_eq!(s.processed, s.total_urls);
    assert_eq!(
        s.status,
        "❌ Слишком долгое ожидание — операция прервана. Проверьте интернет."
    );
    s.begin_job(OutputMode::Search, 1, "⏳".to_string());
    s.cancel_loading("00:02:00");
    assert!(!s.loading);
    assert_eq!(s.status, "⏹ Операция отменена.");
    assert_eq!(s.log_lines.last().unwrap(), "[00:02:00] ⏹ Операция отменена пользователем.");
}

#[test]
fn filter_matches_title_or_artist_case_insensitively() {
    let mut s = Session::new("start".to_string());
    s.tracks = vec![track("1", "Кино", "Звезда"), track("2", "Queen", "Bohemian Rhapsody"), track("3", "ABBA", "SOS")];
    assert_eq!(s.filtered_track_indices(), vec![0, 1, 2]);
    s.result_filter = "  QUEEN ".to_string();
    assert_eq!(s.filtered_track_indices(), vec![1]);
    s.result_filter = "зве".to_string();
    assert_eq!(s.filtered_track_indices(), vec![0]);
    s.result_filter = "s".to_string();
    assert_eq!(s.filtered_track_indices(), vec![1, 2]);
}
