use mp3_downloader_gui::display::{
    batch_status, downloads_button_label, failed_task_page, format_clock, import_status,
    logs_button_label, mp3party_stream_target, playlist_button_label, playlist_position_label,
    results_title, search_status, status_tone, stream_is_video, stream_playlist_item, task_line,
    tracks_tsv, StatusTone,
};
use mp3_downloader_gui::tasks::DownloadTask;
use mp3_downloader_gui::types::{DownloadSource, DownloadStatus, OutputMode, TrackInfo, YtDlpFormat};

fn track(id: &str, url: &str) -> TrackInfo {
    TrackInfo { id: id.into(), artist: "Кино".into(), title: "Звезда".into(), url: url.into() }
}

#[test]
fn clock_format() {
    assert_eq!(format_clock(0), "0:00");
    assert_eq!(format_clock(65), "1:05");
    assert_eq!(format_clock(3600), "60:00");
}

#[test]
fn results_as_text() {
    let ts = vec![track("1", "u1"), track("2", "u2")];
    assert_eq!(
        tracks_tsv(&ts),
        "ID\tИсполнитель\tНазвание\tСсылка\n1\tКино\tЗвезда\tu1\n2\tКино\tЗвезда\tu2\n"
    );
    assert_eq!(tracks_tsv(&Vec::new()), "ID\tИсполнитель\tНазвание\tСсылка\n");
    assert_eq!(results_title(OutputMode::UrlParsing, DownloadSource::Mp3Party, 2), "📊 Результаты (по ссылкам) — 2 треков");
    assert_eq!(results_title(OutputMode::Search, DownloadSource::DriveMusic, 5), "📊 Результаты (поиск — DriveMusic) — 5 треков");
}

#[test]
fn streams() {
    let it = stream_playlist_item(&track("1", "https://s/1"), DownloadSource::Mp3Party);
    assert_eq!(it.title, "Кино — Звезда");
    assert_eq!(it.subtitle, "Стрим MP3Party");
    assert!(it.is_url);
    assert_eq!(mp3party_stream_target(&track("1", "https://s/1")), "https://s/1");
    assert_eq!(mp3party_stream_target(&track("1", "")), "https://dl2.mp3party.net/online/1.mp3");
    assert!(stream_is_video(DownloadSource::YtDlp, YtDlpFormat::Mp4));
    assert!(!stream_is_video(DownloadSource::Mp3Party, YtDlpFormat::Mp4));
}

#[test]
fn download_rows() {
    let t = DownloadTask {
        track: track("9", "/dl/9-x.html"),
        source: DownloadSource::YtDlp,
        ytdlp_format: Some(YtDlpFormat::Mp3),
        status: DownloadStatus::Pending,
    };
    assert_eq!(task_line(&t), "[YouTube MP3] Кино — Звезда");
    assert_eq!(failed_task_page(DownloadSource::Mp3Party, &t.track).unwrap(), "https://mp3party.net/music/9");
    assert_eq!(
        failed_task_page(DownloadSource::DriveMusic, &t.track).unwrap(),
        "https://ru.drivemusic.me/dl/9-x.html"
    );
    assert!(failed_task_page(DownloadSource::DriveMusic, &track("9", "x")).is_none());
    assert!(failed_task_page(DownloadSource::YtDlp, &t.track).is_none());
}

#[test]
fn buttons_and_status_lines() {
    assert_eq!(downloads_button_label(0), "📥 Загрузки");
    assert_eq!(downloads_button_label(3), "📥 Загрузки (3)");
    assert_eq!(logs_button_label(0), "📋 Логи");
    assert_eq!(logs_button_label(12), "📋 Логи (12)");
    assert_eq!(playlist_position_label(0, 1), "");
    assert_eq!(playlist_position_label(1, 4), "  [2/4]");
    assert_eq!(playlist_button_label(1), "📋");
    assert_eq!(playlist_button_label(4), "📋 (4)");
    assert_eq!(search_status(DownloadSource::Mp3Party, "кино"), "⏳ Поиск [MP3Party] «кино»...");
    assert_eq!(batch_status(DownloadSource::YtDlp, 3), "⏳ Пакетный поиск [YouTube (yt-dlp)]: 3 запрос(ов)…");
    assert_eq!(import_status(4), "⏳ Импорт 4 ссылок...");
}

#[test]
fn status_line_tones() {
    assert_eq!(status_tone("✅ Готово", true), StatusTone::Busy);
    assert_eq!(status_tone("✅ Готово", false), StatusTone::Success);
    assert_eq!(status_tone("📋 Скопировано в буфер", false), StatusTone::Success);
    assert_eq!(status_tone("❌ Ошибка", false), StatusTone::Error);
    assert_eq!(status_tone("⚠️ Введите", false), StatusTone::Error);
    assert_eq!(status_tone("🎧 Поток", false), StatusTone::Neutral);
}
