use mp3_downloader_gui::types::{DownloadSource, DownloadStatus, YtDlpFormat, MIN_DOWNLOAD_BYTES};

#[test]
fn source_labels() {
    assert_eq!(DownloadSource::Mp3Party.label(), "MP3Party");
    assert_eq!(DownloadSource::DriveMusic.label(), "DriveMusic");
    assert_eq!(DownloadSource::YtDlp.label(), "YouTube (yt-dlp)");
    assert_eq!(DownloadSource::PesniMe.label(), "Pesni.me");
}

#[test]
fn impe_names_round_trip() {
    for s in [
        DownloadSource::Mp3Party,
        DownloadSource::DriveMusic,
        DownloadSource::YtDlp,
        DownloadSource::PesniMe,
    ] {
        assert_eq!(DownloadSource::from_impe_name(s.impe_name()), Some(s));
    }
    assert_eq!(DownloadSource::YtDlp.impe_name(), "YouTube");
    assert_eq!(DownloadSource::from_impe_name("youtube"), None);
    assert_eq!(DownloadSource::from_impe_name(""), None);
}

#[test]
fn format_labels_and_extensions() {
    assert_eq!(YtDlpFormat::Mp3.label(), "MP3 (аудио)");
    assert_eq!(YtDlpFormat::Mp4.label(), "MP4 (видео)");
    assert_eq!(YtDlpFormat::Mp3.archive_ext(), "mp3");
    assert_eq!(YtDlpFormat::Mp4.archive_ext(), "mp4");
}

#[test]
fn active_statuses() {
    assert!(DownloadStatus::Pending.is_active());
    assert!(DownloadStatus::Downloading { percent: 10, bytes: 5, total: 50 }.is_active());
    assert!(!DownloadStatus::Completed("a.mp3".to_string()).is_active());
    assert!(!DownloadStatus::Failed("x".to_string()).is_active());
    assert!(!DownloadStatus::Cancelled.is_active());
    assert_eq!(MIN_DOWNLOAD_BYTES, 50 * 1024);
}
