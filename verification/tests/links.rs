use mp3_downloader_gui::links::{
    classify_line, direct_link_kind, extract_id, is_pesnime_link, plan_import, resolve_direct_link,
    sanitize_filename, DirectLink, LineKind,
};
use mp3_downloader_gui::types::TrackInfo;

#[test]
fn ids_from_links() {
    assert_eq!(extract_id("https://mp3party.net/music/123"), Some("123".to_string()));
    assert_eq!(extract_id("https://dl2.mp3party.net/download/8787500"), Some("8787500".to_string()));
    assert_eq!(extract_id("https://example.com/a/42/"), Some("42".to_string()));
    assert_eq!(extract_id("987"), Some("987".to_string()));
    assert_eq!(extract_id("https://example.com/abc"), None);
}

#[test]
fn line_classification() {
    assert!(matches!(classify_line("https://dl2.mp3party.net/download/8787500"), LineKind::Direct));
    assert!(matches!(classify_line("HTTPS://EXAMPLE.COM/SONG.MP3"), LineKind::Direct));
    match classify_line("https://mp3party.net/music/555") {
        LineKind::Id(id) => assert_eq!(id, "555"),
        _ => panic!("expected an id"),
    }
    assert!(matches!(classify_line("какой-то текст"), LineKind::Unrecognized));
}

#[test]
fn import_plan_splits_links_and_ids() {
    let p = plan_import("  https://dl2.mp3party.net/download/1\n\nhttps://mp3party.net/music/2\n 3 \n").unwrap();
    assert_eq!(p.direct_links, vec!["https://dl2.mp3party.net/download/1".to_string()]);
    assert_eq!(
        p.ids,
        vec![
            ("https://mp3party.net/music/2".to_string(), "2".to_string()),
            ("3".to_string(), "3".to_string())
        ]
    );
}

#[test]
fn import_errors() {
    assert_eq!(plan_import("   \n  ").err().unwrap(), "⚠️ Введите ссылки для парсинга.");
    assert_eq!(
        plan_import("https://mp3party.net/music/2\nнепонятно").err().unwrap(),
        "⚠️ Не удалось распознать: непонятно"
    );
}

#[test]
fn pesnime_links() {
    assert!(is_pesnime_link("https://mix.pesni.me/track/1"));
    assert!(!is_pesnime_link("https://mp3party.net/music/1"));
}

#[test]
fn file_names_are_sanitized() {
    assert_eq!(sanitize_filename("a/b\\c:d*e?f\"g<h>i|j"), "a_b_c_d_e_f_g_h_i_j");
    assert_eq!(sanitize_filename("Кино - Звезда"), "Кино - Звезда");
}

#[test]
fn direct_link_kinds() {
    match direct_link_kind("https://dl2.mp3party.net/download/8787500.mp3") {
        DirectLink::Mp3Party(id) => assert_eq!(id, "8787500"),
        _ => panic!("expected MP3Party"),
    }
    match direct_link_kind("https://pl.pesni.me/123.mp3?x=1") {
        DirectLink::PesniMe(id) => assert_eq!(id, "123"),
        _ => panic!("expected Pesni.me"),
    }
    assert!(matches!(direct_link_kind("https://example.com/song.mp3"), DirectLink::Plain));
}

#[test]
fn direct_links_become_tracks() {
    let t = resolve_direct_link("https://example.com/dir/My:Song.mp3", None);
    assert_eq!(t.title, "My_Song");
    assert_eq!(t.id, "");
    assert_eq!(t.url, "https://example.com/dir/My:Song.mp3");
    let fetched = TrackInfo {
        id: "7".to_string(),
        artist: "A".to_string(),
        title: "T".to_string(),
        url: "https://dl2.mp3party.net/online/7.mp3".to_string(),
    };
    let t2 = resolve_direct_link("https://dl2.mp3party.net/download/7", Some(fetched));
    assert_eq!(t2.id, "7");
    assert_eq!(t2.artist, "A");
    assert_eq!(t2.url, "https://dl2.mp3party.net/download/7");
}
