use mp3_downloader_gui::library::{library_item, media_entry, sort_by_modified, LocalMedia};

#[test]
fn media_files_are_recognised() {
    let m = media_entry("/d/Song.Name.MP3", "Song.Name.MP3", 1234).unwrap();
    assert_eq!(m.display_name, "Song.Name");
    assert!(!m.is_video);
    assert_eq!(m.size_bytes, 1234);
    assert_eq!(m.path, "/d/Song.Name.MP3");
    let v = media_entry("/d/clip.webm", "clip.webm", 1).unwrap();
    assert!(v.is_video);
    assert_eq!(v.display_name, "clip");
    assert!(media_entry("/d/notes.txt", "notes.txt", 1).is_none());
    assert!(media_entry("/d/.mp3", ".mp3", 1).is_none());
    assert!(media_entry("/d/README", "README", 1).is_none());
    assert!(media_entry("/d/x.", "x.", 1).is_none());
    assert!(media_entry("/d/a.FLAC", "a.FLAC", 1).is_some());
}

fn m(name: &str) -> LocalMedia {
    LocalMedia { path: format!("/d/{}", name), display_name: name.to_string(), is_video: false, size_bytes: 0 }
}

#[test]
fn newest_first_with_ties_kept_in_order() {
    let sorted = sort_by_modified(vec![(m("a"), 10), (m("b"), 30), (m("c"), 10), (m("d"), 20), (m("e"), -5)]);
    let names: Vec<&str> = sorted.iter().map(|x| x.display_name.as_str()).collect();
    assert_eq!(names, vec!["b", "d", "a", "c", "e"]);
    assert!(sort_by_modified(Vec::new()).is_empty());
}

#[test]
fn library_entries_become_playlist_items() {
    let mut v = m("clip");
    v.is_video = true;
    let it = library_item(&v);
    assert_eq!(it.subtitle, "Видео");
    assert!(it.is_video);
    assert!(!it.is_url);
    assert_eq!(library_item(&m("song")).subtitle, "Локальный файл");
    assert_eq!(library_item(&m("song")).path_or_url, "/d/song");
}
