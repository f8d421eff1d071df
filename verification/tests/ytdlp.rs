use mp3_downloader_gui::types::{TrackInfo, YtDlpFormat};
use mp3_downloader_gui::ytdlp::{
    proxy_env_keys, ytdlp_archive_name, ytdlp_download_args, ytdlp_format_args, ytdlp_network_args, ytdlp_search_args, ytdlp_search_results,
    ytdlp_speed_args, ytdlp_stream_format, ytdlp_stream_result, ytdlp_target,
};

#[test]
fn command_arguments() {
    assert_eq!(
        ytdlp_format_args(YtDlpFormat::Mp3),
        vec!["-x", "--audio-format", "mp3", "--audio-quality", "0", "--embed-thumbnail"]
    );
    assert_eq!(ytdlp_format_args(YtDlpFormat::Mp4), vec!["-f", "bv*+ba/b", "--merge-output-format", "mp4"]);
    assert_eq!(ytdlp_speed_args(false), vec!["--concurrent-fragments", "8"]);
    assert_eq!(ytdlp_speed_args(true)[1], "aria2c");
    assert_eq!(ytdlp_network_args().len(), 8);
    assert!(proxy_env_keys().contains(&"HTTPS_PROXY"));
    assert_eq!(ytdlp_search_args("queen")[5], "ytsearch20:queen");
    assert_eq!(ytdlp_stream_format(YtDlpFormat::Mp3), "bestaudio[ext=m4a]/bestaudio/best");
}

#[test]
fn download_target() {
    let t = TrackInfo { id: "x".into(), artist: " Queen ".into(), title: "Killer Queen ".into(), url: "".into() };
    assert_eq!(ytdlp_target(&t), "ytsearch1:Queen - Killer Queen");
    let t2 = TrackInfo { url: "https://youtu.be/x".into(), ..t };
    assert_eq!(ytdlp_target(&t2), "https://youtu.be/x");
}

#[test]
fn search_output_read_into_tracks() {
    let out = "abc|||Queen - Bohemian Rhapsody|||Queen Official\nNA|||x|||y\ndef|||Song|||Chan\nabc|||dup|||dup\nnoise\n";
    let r = ytdlp_search_results(true, Some(0), out.as_bytes(), b"", "q").unwrap();
    assert_eq!(r.len(), 2);
    assert_eq!(r[0].id, "abc");
    assert_eq!(r[0].artist, "Queen");
    assert_eq!(r[0].title, "Bohemian Rhapsody");
    assert_eq!(r[0].url, "https://www.youtube.com/watch?v=abc");
    assert_eq!(r[1].artist, "Chan");
    assert_eq!(r[1].title, "Song");
}

#[test]
fn search_failures() {
    assert_eq!(
        ytdlp_search_results(true, Some(0), b"", b"", "q").unwrap_err(),
        "Ничего не найдено на YouTube по запросу «q»."
    );
    assert_eq!(
        ytdlp_search_results(false, Some(1), b"", b"", "q").unwrap_err(),
        "yt-dlp завершился с кодом Some(1)"
    );
    assert_eq!(
        ytdlp_search_results(false, None, b"", b"", "q").unwrap_err(),
        "yt-dlp завершился с кодом None"
    );
    assert_eq!(
        ytdlp_search_results(false, Some(2), b"", b"a\nb\nc\nd\ne\n", "q").unwrap_err(),
        "YouTube/yt-dlp: b\nc\nd\ne"
    );
}

#[test]
fn stream_url_from_output() {
    assert_eq!(
        ytdlp_stream_result(true, b"[info] x\nhttps://cdn/video \nhttps://cdn/audio\n", b"").unwrap(),
        "https://cdn/video"
    );
    assert_eq!(ytdlp_stream_result(true, b"nothing\n", b"").unwrap_err(), "yt-dlp не вернул URL потока");
    assert_eq!(ytdlp_stream_result(false, b"", b"  ERROR: boom \n").unwrap_err(), "ERROR: boom");
}

#[test]
fn download_arguments() {
    assert_eq!(ytdlp_archive_name(YtDlpFormat::Mp4), ".yt-dlp-archive-mp4");
    let a = ytdlp_download_args("/d/.yt-dlp-archive-mp3", "/d", YtDlpFormat::Mp3, "ytsearch1:A - B", false);
    assert_eq!(a.len(), 19 + 6 + 1 + 2);
    assert_eq!(a[5], "/d/.yt-dlp-archive-mp3");
    assert_eq!(a[18], "/d/%(title)s.%(ext)s");
    assert_eq!(a[19], "-x");
    assert_eq!(a[25], "ytsearch1:A - B");
    assert_eq!(a[26..], ["--concurrent-fragments".to_string(), "8".to_string()]);
}
