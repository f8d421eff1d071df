use mp3_downloader_gui::tasks::{
    already_downloading, cancel_message, count_downloading, download_totals, has_active_downloads,
    plan_download, started_message, totals_fit, DownloadTask,
};
use mp3_downloader_gui::types::{DownloadSource, DownloadStatus, TrackInfo, YtDlpFormat};

fn track(id: &str) -> TrackInfo {
    TrackInfo { id: id.into(), artist: "A".into(), title: "T".into(), url: String::new() }
}

fn task(id: &str, source: DownloadSource, fmt: Option<YtDlpFormat>, status: DownloadStatus) -> DownloadTask {
    DownloadTask { track: track(id), source, ytdlp_format: fmt, status }
}

#[test]
fn a_running_download_is_not_started_twice() {
    let mut tasks: Vec<DownloadTask> = Vec::new();
    let t = plan_download(&tasks, &track("1"), DownloadSource::Mp3Party, YtDlpFormat::Mp3).unwrap();
    assert!(t.ytdlp_format.is_none());
    assert!(matches!(t.status, DownloadStatus::Pending));
    tasks.push(t);
    assert_eq!(
        plan_download(&tasks, &track("1"), DownloadSource::Mp3Party, YtDlpFormat::Mp3).err().unwrap(),
        "⚠️ «A — T» уже скачивается"
    );
    assert!(plan_download(&tasks, &track("1"), DownloadSource::DriveMusic, YtDlpFormat::Mp3).is_ok());
    assert!(plan_download(&tasks, &track("2"), DownloadSource::Mp3Party, YtDlpFormat::Mp3).is_ok());
}

#[test]
fn youtube_formats_are_separate_downloads() {
    let tasks = vec![task("v", DownloadSource::YtDlp, Some(YtDlpFormat::Mp3), DownloadStatus::Pending)];
    assert!(already_downloading(&tasks, &track("v"), DownloadSource::YtDlp, YtDlpFormat::Mp3));
    assert!(!already_downloading(&tasks, &track("v"), DownloadSource::YtDlp, YtDlpFormat::Mp4));
    let t = plan_download(&tasks, &track("v"), DownloadSource::YtDlp, YtDlpFormat::Mp4).unwrap();
    assert_eq!(t.ytdlp_format, Some(YtDlpFormat::Mp4));
}

#[test]
fn finished_downloads_can_be_restarted() {
    let tasks = vec![
        task("1", DownloadSource::Mp3Party, None, DownloadStatus::Completed("f".into())),
        task("2", DownloadSource::Mp3Party, None, DownloadStatus::Failed("e".into())),
    ];
    assert!(!already_downloading(&tasks, &track("1"), DownloadSource::Mp3Party, YtDlpFormat::Mp3));
    assert!(!has_active_downloads(&tasks));
    assert!(cancel_message(&tasks[0]).is_none());
}

#[test]
fn running_downloads_and_totals() {
    let tasks = vec![
        task("1", DownloadSource::Mp3Party, None, DownloadStatus::Downloading { percent: 0, bytes: 100, total: 1000 }),
        task("2", DownloadSource::Mp3Party, None, DownloadStatus::Downloading { percent: 0, bytes: 50, total: 0 }),
        task("3", DownloadSource::Mp3Party, None, DownloadStatus::Pending),
        task("4", DownloadSource::Mp3Party, None, DownloadStatus::Cancelled),
    ];
    assert!(has_active_downloads(&tasks));
    assert_eq!(count_downloading(&tasks), 2);
    assert!(totals_fit(&tasks));
    assert_eq!(download_totals(&tasks), (150, 1000));
    assert_eq!(cancel_message(&tasks[2]).unwrap(), "⏹ Остановлено: A — T");
    let huge = vec![
        task("1", DownloadSource::Mp3Party, None, DownloadStatus::Downloading { percent: 0, bytes: u64::MAX, total: 0 }),
        task("2", DownloadSource::Mp3Party, None, DownloadStatus::Downloading { percent: 0, bytes: 1, total: 0 }),
    ];
    assert!(!totals_fit(&huge));
}

#[test]
fn started_messages() {
    assert_eq!(
        started_message(DownloadSource::YtDlp, YtDlpFormat::Mp4, &track("1")),
        "📥 [YouTube (yt-dlp)] MP4 (видео) A — T"
    );
    assert_eq!(started_message(DownloadSource::Mp3Party, YtDlpFormat::Mp4, &track("1")), "📥 [MP3Party] A — T");
}
