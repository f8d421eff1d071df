use mp3_downloader_gui::playlist::{check_stream, LoopMode, Playlist, PlaylistAction, PlaylistItem};

fn item(name: &str) -> PlaylistItem {
    PlaylistItem {
        path_or_url: format!("/music/{}.mp3", name),
        title: name.to_string(),
        subtitle: "Локальный файл".to_string(),
        is_video: false,
        is_url: false,
    }
}

fn list_of(n: usize) -> Playlist {
    let mut p = Playlist::new();
    for i in 0..n {
        p.add_to_playlist(item(&format!("t{}", i)));
    }
    p
}

#[test]
fn loop_mode_cycles_in_three_presses() {
    let m = LoopMode::NoRepeat;
    assert_eq!(m.next(), LoopMode::RepeatAll);
    assert_eq!(m.next().next(), LoopMode::RepeatOne);
    assert_eq!(m.next().next().next(), m);
    assert_eq!(LoopMode::NoRepeat.label(), "🔁 Нет");
    assert_eq!(LoopMode::RepeatAll.label(), "🔁 Все");
    assert_eq!(LoopMode::RepeatOne.label(), "🔂 Один");
}

#[test]
fn next_without_repeat_stops_at_end_and_clears() {
    let mut p = list_of(2);
    assert_eq!(p.play_next_with(0), PlaylistAction::Play(1));
    assert_eq!(p.play_next_with(0), PlaylistAction::Stop);
    assert_eq!(p.len(), 0);
    assert_eq!(p.index, 0);
    assert_eq!(p.play_next_with(0), PlaylistAction::Nothing);
}

#[test]
fn repeat_all_wraps_and_prev_wraps_back() {
    let mut p = list_of(3);
    p.set_loop_mode(LoopMode::RepeatAll);
    p.select(2);
    assert_eq!(p.play_next_with(0), PlaylistAction::Play(0));
    assert_eq!(p.play_prev(), PlaylistAction::Play(2));
}

#[test]
fn repeat_one_replays_current() {
    let mut p = list_of(3);
    p.set_loop_mode(LoopMode::RepeatOne);
    p.select(1);
    assert_eq!(p.play_next_with(0), PlaylistAction::Play(1));
    assert_eq!(p.index, 1);
}

#[test]
fn prev_without_repeat_stays_at_start() {
    let mut p = list_of(2);
    assert_eq!(p.play_prev(), PlaylistAction::Play(0));
}

#[test]
fn shuffle_never_replays_current_and_prev_goes_back() {
    let mut p = list_of(4);
    p.select(1);
    p.toggle_shuffle();
    assert_eq!(p.history, vec![1]);
    // draws 0..3 map to the positions other than 1
    assert_eq!(p.play_next_with(1), PlaylistAction::Play(2));
    assert_eq!(p.play_next_with(0), PlaylistAction::Play(0));
    assert_eq!(p.play_prev(), PlaylistAction::Play(2));
    assert_eq!(p.play_prev(), PlaylistAction::Play(1));
    for _ in 0..50 {
        let before = p.index;
        match p.play_next() {
            PlaylistAction::Play(i) => assert_ne!(i, before),
            other => panic!("unexpected {:?}", other),
        }
    }
}

#[test]
fn remove_before_current_keeps_it_current() {
    let mut p = list_of(4);
    p.select(2);
    p.remove_from_playlist(0);
    assert_eq!(p.index, 1);
    assert_eq!(p.current().unwrap().title, "t2");
    p.remove_from_playlist(10);
    assert_eq!(p.len(), 3);
}

#[test]
fn remove_current_last_moves_back() {
    let mut p = list_of(3);
    p.select(2);
    p.remove_from_playlist(2);
    assert_eq!(p.index, 1);
    p.remove_from_playlist(0);
    p.remove_from_playlist(0);
    assert_eq!(p.len(), 0);
    assert_eq!(p.index, 0);
    assert!(p.current().is_none());
}

#[test]
fn toggle_shuffle_off_clears_history() {
    let mut p = list_of(2);
    p.toggle_shuffle();
    assert!(p.shuffle);
    p.toggle_shuffle();
    assert!(!p.shuffle);
    assert!(p.history.is_empty());
    p.clear_playlist();
    assert_eq!(p.len(), 0);
}

#[test]
fn next_from_a_position_past_the_end() {
    let mut p = Playlist::new();
    p.add_to_playlist(item("a"));
    p.add_to_playlist(item("b"));
    p.index = usize::MAX;
    p.set_loop_mode(LoopMode::RepeatAll);
    assert_eq!(p.play_next(), PlaylistAction::Play(0));
    p.index = usize::MAX;
    p.set_loop_mode(LoopMode::NoRepeat);
    assert_eq!(p.play_next(), PlaylistAction::Stop);
    assert_eq!(p.len(), 0);
    let mut q = Playlist::new();
    q.add_to_playlist(item("a"));
    q.add_to_playlist(item("b"));
    q.toggle_shuffle();
    q.index = usize::MAX;
    match q.play_next() {
        PlaylistAction::Play(i) => assert!(i < 2),
        other => panic!("unexpected {:?}", other),
    }
    assert_eq!(Playlist::new().play_next(), PlaylistAction::Nothing);
}

#[test]
fn short_streams_are_refused() {
    assert_eq!(check_stream(50 * 1024 - 1).unwrap_err(), "Поток слишком короткий или недоступен");
    assert_eq!(check_stream(0).unwrap_err(), "Поток слишком короткий или недоступен");
    assert!(check_stream(50 * 1024).is_ok());
}
