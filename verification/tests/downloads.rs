use mp3_downloader_gui::downloads::{
    drivemusic_filename, finished_attempt, is_short_download, mp3party_filename, set_download_stopped,
    Attempt, CandidateRun, HttpSite, Step, YtDlpProgress,
};
use mp3_downloader_gui::types::{DownloadStatus, TrackInfo};

fn t(id: &str, artist: &str, title: &str) -> TrackInfo {
    TrackInfo { id: id.into(), artist: artist.into(), title: title.into(), url: String::new() }
}

fn tried(s: Step) -> String {
    match s {
        Step::Try(u) => u,
        Step::Complete => panic!("complete"),
        Step::Fail(m) => panic!("failed: {}", m),
    }
}

#[test]
fn file_names() {
    assert_eq!(mp3party_filename(&t("1", " AC/DC ", "Back: In Black ")), "AC_DC - Back_ In Black.mp3");
    let d = drivemusic_filename(&t("7", "A", "B"));
    assert!(d.ends_with("_7.mp3"), "{}", d);
}

#[test]
fn stopping_prefers_cancel() {
    assert!(matches!(set_download_stopped(true, Some("x".into())), DownloadStatus::Cancelled));
    assert!(matches!(set_download_stopped(false, None), DownloadStatus::Cancelled));
    match set_download_stopped(false, Some("boom".into())) {
        DownloadStatus::Failed(m) => assert_eq!(m, "boom"),
        other => panic!("{:?}", other),
    }
}

#[test]
fn candidates_are_tried_in_order_until_a_full_file() {
    let mut run = CandidateRun::new(
        HttpSite::Mp3Party,
        vec!["u1".into(), "u2".into(), "u3".into()],
        "5",
        "https://mp3party.net/music/5",
    );
    assert_eq!(tried(run.start()), "u1");
    assert_eq!(tried(run.after_attempt(Attempt::HttpStatus("404 Not Found".into()))), "u2");
    assert_eq!(run.last_err, "HTTP 404 Not Found");
    assert_eq!(tried(run.after_attempt(Attempt::Finished { downloaded: 2048, error_body: false })), "u3");
    assert_eq!(run.last_err, "файл 2 KB");
    assert!(matches!(
        run.after_attempt(Attempt::Finished { downloaded: 51200, error_body: false }),
        Step::Complete
    ));
}

#[test]
fn exhausted_mp3party_run_explains_why() {
    let mut run = CandidateRun::new(HttpSite::Mp3Party, vec!["u1".into()], "5", "P");
    assert_eq!(tried(run.start()), "u1");
    match run.after_attempt(Attempt::Finished { downloaded: 0, error_body: true }) {
        Step::Fail(m) => assert_eq!(
            m,
            "Трек ID 5 недоступен на CDN MP3Party — выберите другой результат поиска или источник YouTube. Страница: P"
        ),
        _ => panic!("expected failure"),
    }
    let mut run2 = CandidateRun::new(HttpSite::Mp3Party, vec![], "5", "P");
    match run2.start() {
        Step::Fail(m) => assert_eq!(m, "MP3Party: нет доступных URL Страница: P"),
        _ => panic!("expected failure"),
    }
}

#[test]
fn drivemusic_runs() {
    let mut empty = CandidateRun::new(HttpSite::DriveMusic, vec![], "1", "P");
    match empty.start() {
        Step::Fail(m) => assert_eq!(m, "Нет ссылок на MP3 (временные URL могли устареть). Страница: P"),
        _ => panic!("expected failure"),
    }
    let mut run = CandidateRun::new(HttpSite::DriveMusic, vec!["u".into()], "1", "P");
    assert_eq!(tried(run.start()), "u");
    match run.after_attempt(Attempt::Finished { downloaded: 1000, error_body: false }) {
        Step::Fail(m) => assert_eq!(
            m,
            "DriveMusic: файл 0 KB — ссылка могла устареть, откройте страницу заново. Страница: P (ссылки временные)"
        ),
        _ => panic!("expected failure"),
    }
    let mut run3 = CandidateRun::new(HttpSite::DriveMusic, vec!["u".into(), "v".into()], "1", "P");
    assert_eq!(tried(run3.start()), "u");
    match run3.after_attempt(Attempt::FileFailed("нет места".into())) {
        Step::Fail(m) => assert_eq!(m, "Файл: нет места"),
        _ => panic!("expected failure"),
    }
}

#[test]
fn ytdlp_progress_lines() {
    let mut p = YtDlpProgress::new();
    assert_eq!(p.on_line("[download]  12.5% of 3.00MiB"), Some(12));
    assert_eq!(p.on_line("[download]   5.0% of 3.00MiB"), None);
    assert_eq!(p.on_line("[download] 100% of 3.00MiB"), Some(99));
    assert_eq!(p.on_line("AFTERMOVE:/music/song.mp3"), None);
    assert_eq!(p.completed_path.as_deref(), Some("/music/song.mp3"));
    assert_eq!(p.outcome(0).unwrap(), "/music/song.mp3");
    let q = YtDlpProgress::new();
    assert_eq!(q.outcome(0).unwrap_err(), "yt-dlp завершился без файла (возможно, трек уже в архиве)");
    assert_eq!(q.outcome(-2).unwrap_err(), "yt-dlp завершился с кодом -2");
}

#[test]
fn per_site_download_rules() {
    assert_eq!(HttpSite::Mp3Party.byte_limit(), Some(100 * 1024 * 1024));
    assert_eq!(HttpSite::DriveMusic.byte_limit(), None);
    assert!(HttpSite::Mp3Party.checks_error_body());
    assert!(!HttpSite::DriveMusic.checks_error_body());
    assert!(is_short_download(50 * 1024 - 1));
    assert!(!is_short_download(50 * 1024));
    let body = b"failed to get file info".to_vec();
    assert!(matches!(
        finished_attempt(true, 23, Some(body.clone())),
        Attempt::Finished { downloaded: 23, error_body: true }
    ));
    assert!(matches!(
        finished_attempt(false, 23, Some(body.clone())),
        Attempt::Finished { downloaded: 23, error_body: false }
    ));
    assert!(matches!(finished_attempt(true, 23, None), Attempt::Finished { error_body: false, .. }));
    assert!(matches!(
        finished_attempt(true, 60 * 1024, Some(body)),
        Attempt::Finished { downloaded: 61440, error_body: false }
    ));
    assert!(matches!(
        finished_attempt(true, 10, Some(b"<html>ok</html>".to_vec())),
        Attempt::Finished { error_body: false, .. }
    ));
}
