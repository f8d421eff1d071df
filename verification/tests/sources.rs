use mp3_downloader_gui::sources::{
    drivemusic_download_candidates, drivemusic_extract_mp3_urls, drivemusic_page_url,
    drivemusic_search_results, drivemusic_search_url, is_mp3party_error_body, mp3party_download_url,
    mp3party_search_url, mp3party_stream_url, mp3party_track_page, pesnime_extract_tracks,
    pesnime_fallback, pesnime_fallback_search_url, pesnime_first_pass, pesnime_search_url,
    pesnime_track_from_page, pesnime_track_url, pick_stream_url, replace_str, split_whitespace_of,
    split_ytdlp_title, unescape_json, utf8_lossy, youtube_watch_url,
};
use mp3_downloader_gui::types::TrackInfo;

fn track(id: &str, artist: &str, title: &str, url: &str) -> TrackInfo {
    TrackInfo { id: id.into(), artist: artist.into(), title: title.into(), url: url.into() }
}

#[test]
fn mp3party_urls() {
    assert_eq!(mp3party_stream_url("42"), "https://dl2.mp3party.net/online/42.mp3");
    assert_eq!(mp3party_download_url("42"), "https://dl2.mp3party.net/download/42");
    assert_eq!(mp3party_track_page("42"), "https://mp3party.net/music/42");
    assert_eq!(
        mp3party_search_url("Кино звезда"),
        "https://mp3party.net/search?q=%D0%9A%D0%B8%D0%BD%D0%BE%20%D0%B7%D0%B2%D0%B5%D0%B7%D0%B4%D0%B0"
    );
}

#[test]
fn other_site_urls() {
    assert_eq!(
        drivemusic_search_url("  a b&c/d "),
        "https://ru.drivemusic.me/?do=search&subaction=search&story=a%20b%26c%2Fd"
    );
    assert_eq!(pesnime_search_url("a b"), "https://mix.pesni.me/search/a%20b?type=tracks");
    assert_eq!(pesnime_fallback_search_url("a b"), "https://pesni.me/search/a%20b");
    assert_eq!(pesnime_track_url("9"), "https://mix.pesni.me/track/9");
    assert_eq!(youtube_watch_url("abc"), "https://www.youtube.com/watch?v=abc");
}

#[test]
fn drivemusic_pages() {
    let t = track("1", "", "", " /muzyka/1-song.html ");
    assert_eq!(drivemusic_page_url(&t).unwrap(), "https://ru.drivemusic.me/muzyka/1-song.html");
    let t2 = track("1", "", "", "https://ru.drivemusic.me/x/1-a.html");
    assert_eq!(drivemusic_page_url(&t2).unwrap(), "https://ru.drivemusic.me/x/1-a.html");
    let t3 = track("1", "", "", "https://example.com/");
    assert_eq!(
        drivemusic_page_url(&t3).unwrap_err(),
        "DriveMusic: нет ссылки на страницу трека — найдите трек через поиск."
    );
}

#[test]
fn youtube_titles() {
    assert_eq!(split_ytdlp_title("Queen - Bohemian Rhapsody", "QueenVEVO"), ("Queen".to_string(), "Bohemian Rhapsody".to_string()));
    assert_eq!(split_ytdlp_title("Song", "Channel"), ("Channel".to_string(), "Song".to_string()));
    assert_eq!(split_ytdlp_title("Song", "Song"), ("YouTube".to_string(), "Song".to_string()));
    assert_eq!(split_ytdlp_title(" Song ", ""), ("YouTube".to_string(), "Song".to_string()));
}

#[test]
fn error_bodies() {
    assert!(is_mp3party_error_body(b"failed to get file info"));
    assert!(is_mp3party_error_body(b"nil"));
    assert!(!is_mp3party_error_body(b"ID3 audio"));
    let long = vec![b'n'; 600];
    assert!(!is_mp3party_error_body(&long));
    assert_eq!(utf8_lossy(&[0x61, 0xff, 0x62]), "a\u{fffd}b");
}

#[test]
fn text_replacements() {
    assert_eq!(replace_str("aXbXc", "X", "--"), "a--b--c");
    assert_eq!(replace_str("aaa", "aa", "b"), "ba");
    assert_eq!(unescape_json("say \\\"hi\\\"\\nnext\\tcol"), "say \"hi\"\nnext\tcol");
    assert_eq!(split_whitespace_of("  a  b\tc\n"), vec!["a", "b", "c"]);
}

#[test]
fn drivemusic_mp3_links_sorted_and_deduplicated() {
    let html = r#"<a href="https://ru.drivemusic.me/dl/online/abc/long-name.mp3">
        <a href="https://ru.drivemusic.me/dl/xyz/b.mp3">
        <a href="https://ru.drivemusic.me/dl/xyz/b.mp3">
        <a href="https://ru.drivemusic.me/dl/xyz/longer.mp3">"#;
    let urls = drivemusic_extract_mp3_urls(html);
    assert_eq!(
        urls,
        vec![
            "https://ru.drivemusic.me/dl/xyz/b.mp3".to_string(),
            "https://ru.drivemusic.me/dl/xyz/longer.mp3".to_string(),
            "https://ru.drivemusic.me/dl/online/abc/long-name.mp3".to_string(),
        ]
    );
    let t = track("1", "", "", "");
    assert_eq!(drivemusic_download_candidates(html, &t), urls);
    assert_eq!(pick_stream_url(&urls).unwrap(), "https://ru.drivemusic.me/dl/online/abc/long-name.mp3");
    assert_eq!(pick_stream_url(&urls[..2].to_vec()).unwrap(), "https://ru.drivemusic.me/dl/xyz/b.mp3");
    assert_eq!(pick_stream_url(&Vec::new()).unwrap_err(), "На странице нет MP3 URL");
}

#[test]
fn drivemusic_search_page() {
    let body = r#"<div><a href="/pop/101-queen-song.html" class="popular-play-author" x>Queen</a>
        <span class="popular-play-composition"><a href="/x">Bohemian Rhapsody</a></span></div>
        <div><a href="/pop/101-queen-song.html" class="popular-play-author">Queen</a>
        <span class="popular-play-composition">Again</span></div>"#;
    let r = drivemusic_search_results(body, "queen").unwrap();
    assert_eq!(r.len(), 1);
    assert_eq!(r[0].id, "101");
    assert_eq!(r[0].title, "Queen");
    assert_eq!(r[0].artist, "Bohemian Rhapsody");
    assert_eq!(r[0].url, "https://ru.drivemusic.me/pop/101-queen-song.html");
    assert_eq!(
        drivemusic_search_results("<html></html>", "x").unwrap_err(),
        "Ничего не найдено на DriveMusic по запросу «x»."
    );
}

fn pesnime_entry(id: &str, artist: &str, title: &str, play: &str, download: &str) -> String {
    format!(
        r#"\"id\":{},\"artist\":\"{}\",\"title\":\"{}\",\"version\":\"\",\"duration\":200,\"bitrate\":320,\"size\":1000,\"play\":\"{}\",\"download\":\"{}\""#,
        id, artist, title, play, download
    )
}

#[test]
fn pesnime_tracks_from_page() {
    let body = format!(
        "{} {} {}",
        pesnime_entry("5", "Кино", "Звезда", "https://p/5", "https://d/5"),
        pesnime_entry("5", "Кино", "Звезда", "https://p/5", "https://d/5"),
        pesnime_entry("6", "ABBA", "SOS", "https://p/6", "https://d/6")
    );
    let ts = pesnime_extract_tracks(&body);
    assert_eq!(ts.len(), 2);
    assert_eq!(ts[0].id, "5");
    assert_eq!(ts[0].artist, "Кино");
    assert_eq!(ts[0].url, "https://d/5");
    assert_eq!(ts[1].title, "SOS");
    assert_eq!(pesnime_track_from_page(&body, "5").unwrap().title, "Звезда");
    assert_eq!(
        pesnime_track_from_page("", "7").unwrap_err(),
        "Не удалось распознать трек Pesni.me ID 7"
    );
}

#[test]
fn pesnime_search_filtering() {
    let results = vec![track("1", "Кино", "Звезда", "u1"), track("2", "ABBA", "SOS", "u2")];
    let m = pesnime_first_pass(results.clone(), "кин").unwrap();
    assert_eq!(m.len(), 1);
    assert_eq!(m[0].id, "1");
    let all = pesnime_first_pass(results.clone(), "zzz").unwrap();
    assert_eq!(all.len(), 2);
    assert!(pesnime_first_pass(Vec::new(), "zzz").is_none());
    let second = pesnime_fallback(Some(results), "sos").unwrap();
    assert_eq!(second.len(), 1);
    assert_eq!(second[0].id, "2");
    assert_eq!(
        pesnime_fallback(None, "q").unwrap_err(),
        "Ничего не найдено на Pesni.me по запросу «q»."
    );
}
