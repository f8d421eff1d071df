use mp3_downloader_gui::html::{mp3party_download_candidates, mp3party_search_results, parse_track_page};
use mp3_downloader_gui::types::TrackInfo;

#[test]
fn track_page_from_panel() {
    let body = r#"<html><head><title>ignored</title></head><body>
        <div class="track__user-panel" data-js-artist-name=" Кино " data-js-song-title="Звезда"
             data-js-id="77" data-js-url="https://cdn.example/77.mp3"></div></body></html>"#;
    let t = parse_track_page(body, "77").unwrap();
    assert_eq!(t.id, "77");
    assert_eq!(t.artist, "Кино");
    assert_eq!(t.title, "Звезда");
    assert_eq!(t.url, "https://cdn.example/77.mp3");
}

#[test]
fn track_page_panel_of_other_track_keeps_site_url() {
    let body = r#"<div class="track__user-panel" data-js-artist-name="A" data-js-song-title="B"
             data-js-id="1" data-js-url="https://cdn.example/1.mp3"></div>"#;
    let t = parse_track_page(body, "2").unwrap();
    assert_eq!(t.url, "https://dl2.mp3party.net/online/2.mp3");
}

#[test]
fn track_page_from_og_title() {
    let body = r#"<html><head><meta property="og:title" content="Queen - Bohemian - Rhapsody"></head></html>"#;
    let t = parse_track_page(body, "5").unwrap();
    assert_eq!(t.artist, "Queen");
    assert_eq!(t.title, "Bohemian - Rhapsody");
}

#[test]
fn track_page_from_title_tag() {
    let body = "<html><head><title>Кино — Звезда по имени Солнце скачать mp3</title></head></html>";
    let t = parse_track_page(body, "5").unwrap();
    assert_eq!(t.artist, "Кино");
    assert_eq!(t.title, "Звезда по имени Солнце");
}

#[test]
fn track_page_fallbacks() {
    let t = parse_track_page("<html><body><h1>  Заголовок  </h1></body></html>", "9").unwrap();
    assert_eq!(t.artist, "");
    assert_eq!(t.title, "Заголовок");
    let t2 = parse_track_page("<html></html>", "9").unwrap();
    assert_eq!(t2.title, "Трек #9");
    assert_eq!(t2.url, "https://dl2.mp3party.net/online/9.mp3");
}

#[test]
fn search_page_items() {
    let body = r#"
      <div class="track song-item"><div class="track__user-panel" data-js-id="1"
           data-js-artist-name="A" data-js-song-title="One" data-js-url="https://x/1.mp3"></div></div>
      <div class="track song-item"><div class="track__user-panel" data-js-id="2"
           data-js-artist-name="B" data-js-song-title="Two" data-js-url="/relative"></div></div>
      <div class="track song-item"><div class="track__user-panel" data-js-id="1"
           data-js-artist-name="A" data-js-song-title="One again"></div></div>
      <div class="track song-item"><div class="track__user-panel" data-js-id="3"
           data-js-artist-name="C"></div></div>
      <div class="track song-item"></div>"#;
    let r = mp3party_search_results(body, "q").unwrap();
    assert_eq!(r.len(), 2);
    assert_eq!(r[0].id, "1");
    assert_eq!(r[0].title, "One");
    assert_eq!(r[0].url, "https://x/1.mp3");
    assert_eq!(r[1].id, "2");
    assert_eq!(r[1].url, "https://dl2.mp3party.net/online/2.mp3");
}

#[test]
fn search_page_falls_back_to_any_track_element() {
    let body = r#"<li data-js-id="8" data-js-artist-name="X" data-js-song-title="Y"></li>"#;
    let r = mp3party_search_results(body, "q").unwrap();
    assert_eq!(r.len(), 1);
    assert_eq!(r[0].id, "8");
    assert_eq!(
        mp3party_search_results("<html></html>", "ничего").err().unwrap(),
        "Ничего не найдено по запросу «ничего»."
    );
}

#[test]
fn download_candidates_in_order() {
    let body = r#"
      <a class="js-dw-btn" data-track-id="5" href="https://dl.example/5.mp3">dl</a>
      <a class="js-dw-btn" data-track-id="6" href="https://dl.example/6.mp3">other</a>
      <a class="js-dw-btn" data-track-id="5" href="/relative">rel</a>
      <div class="track__user-panel" data-js-id="5" data-js-url="https://dl.example/5.mp3"></div>
      <div class="track__user-panel" data-js-id="5" data-js-url="https://cdn.example/5.mp3"></div>"#;
    let t = TrackInfo {
        id: "5".into(),
        artist: "A".into(),
        title: "T".into(),
        url: "https://own.example/5.mp3".into(),
    };
    let c = mp3party_download_candidates(body, &t);
    assert_eq!(
        c,
        vec![
            "https://dl.example/5.mp3".to_string(),
            "https://dl2.mp3party.net/download/5".to_string(),
            "https://cdn.example/5.mp3".to_string(),
            "https://own.example/5.mp3".to_string(),
            "https://dl2.mp3party.net/online/5.mp3".to_string(),
        ]
    );
    let bare = TrackInfo { id: "5".into(), artist: "".into(), title: "".into(), url: "".into() };
    assert_eq!(
        mp3party_download_candidates("", &bare),
        vec![
            "https://dl2.mp3party.net/download/5".to_string(),
            "https://dl2.mp3party.net/online/5.mp3".to_string(),
        ]
    );
}
