use mp3_downloader_gui::tools::{external_subtitle, ffplay_args, mpv_args, pick_mpv_asset, which_output_path};

#[test]
fn which_output() {
    assert_eq!(which_output_path(b"/usr/bin/mpv\n/usr/local/bin/mpv\n").unwrap(), "/usr/bin/mpv");
    assert_eq!(which_output_path(b"  C:\\mpv\\mpv.exe \r\n").unwrap(), "C:\\mpv\\mpv.exe");
    assert!(which_output_path(b"").is_none());
    assert!(which_output_path(b"   \nnext").is_none());
}

#[test]
fn mpv_release_asset() {
    let body = r#"[{"name":"mpv-x86_64-20240101.7z","x":1,"browser_download_url":"https://g/plain.7z"},
                  {"name":"mpv-x86_64-v3-20240101.7z","x":2,"browser_download_url":"https://g/v3.7z"},
                  {"name":"mpv-aarch64-20240101.7z","x":3,"browser_download_url":"https://g/arm.7z"}]"#;
    assert_eq!(pick_mpv_asset(body, "mpv-x86_64").unwrap(), "https://g/v3.7z");
    assert_eq!(pick_mpv_asset(body, "mpv-aarch64").unwrap(), "https://g/arm.7z");
    assert_eq!(pick_mpv_asset(body, "mpv-riscv").unwrap_err(), "Сборка mpv не найдена на GitHub");
}

#[test]
fn player_command_lines() {
    assert_eq!(
        mpv_args("T", false, "/tmp/s.sock", "https://x"),
        vec!["--really-quiet", "--no-terminal", "--title", "T", "--no-video", "--force-window=no", "--input-ipc-server=/tmp/s.sock", "https://x"]
    );
    assert_eq!(mpv_args("T", true, "s", "f").len(), 6);
    assert_eq!(ffplay_args(false, "f"), vec!["-nodisp", "-autoexit", "f"]);
    assert_eq!(ffplay_args(true, "f"), vec!["f"]);
    assert_eq!(external_subtitle(true), "Видео (mpv)");
    assert_eq!(external_subtitle(false), "Стрим (mpv)");
}
