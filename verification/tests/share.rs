use mp3_downloader_gui::share::{CreateShare, ShareError, ShareStore, UtcTime, MAX_TIMESTAMP};

fn at(secs: i64) -> UtcTime {
    UtcTime { secs, nanos: 0 }
}

fn body(content: &str, ttl: u32, max_uses: u32) -> CreateShare {
    CreateShare { content: content.to_string(), ttl_minutes: ttl, max_uses }
}

#[test]
fn create_then_read_back() {
    let mut s = ShareStore::new();
    let r = s.create_share_at(at(1_700_000_000), "tok".to_string(), body("hello", 10, 0)).unwrap();
    assert_eq!(r.token, "tok");
    assert_eq!(r.url, "https://krasava.xyz/api/share/tok");
    assert_eq!(r.expires_at, "2023-11-14T22:23:20+00:00");
    assert_eq!(s.get_share_at(at(1_700_000_100), "tok").unwrap(), "hello");
    assert_eq!(s.get_share_at(at(1_700_000_600), "tok").unwrap(), "hello");
    let info = s.share_info("tok").unwrap();
    assert_eq!(info.use_count, 2);
    assert_eq!(info.remaining, u32::MAX);
}

#[test]
fn lifetime_is_clamped() {
    let mut s = ShareStore::new();
    let r0 = s.create_share_at(at(0), "a".to_string(), body("x", 0, 0)).unwrap();
    assert_eq!(r0.expires_at, "1970-01-01T00:01:00+00:00");
    let r1 = s.create_share_at(at(0), "b".to_string(), body("x", 1000, 0)).unwrap();
    assert_eq!(r1.expires_at, "1970-01-01T01:00:00+00:00");
}

#[test]
fn empty_content_is_refused() {
    let mut s = ShareStore::new();
    let e = s.create_share_at(at(0), "a".to_string(), body("", 5, 0)).err().unwrap();
    assert_eq!(e, ShareError::EmptyContent);
    assert_eq!(e.status(), 400);
    assert_eq!(e.message(), "content is empty");
    assert_eq!(s.share_info("a").err().unwrap(), ShareError::NotFound);
    assert_eq!(s.create_share(body("", 5, 0)).err().unwrap(), ShareError::EmptyContent);
}

#[test]
fn expired_share_is_gone() {
    let mut s = ShareStore::new();
    s.create_share_at(at(100), "t".to_string(), body("x", 1, 0)).unwrap();
    assert_eq!(s.get_share_at(at(160), "t").unwrap(), "x");
    let e = s.get_share_at(UtcTime { secs: 160, nanos: 1 }, "t").err().unwrap();
    assert_eq!(e, ShareError::Expired);
    assert_eq!(e.status(), 410);
    assert_eq!(e.message(), "Link expired");
    assert_eq!(s.get_share_at(at(161), "t").err().unwrap(), ShareError::NotFound);
    assert_eq!(ShareError::NotFound.status(), 404);
}

#[test]
fn limited_share_is_served_at_most_max_uses_times() {
    let mut s = ShareStore::new();
    s.create_share_at(at(0), "t".to_string(), body("x", 5, 2)).unwrap();
    assert_eq!(s.share_info("t").unwrap().remaining, 2);
    assert_eq!(s.get_share_at(at(1), "t").unwrap(), "x");
    let info = s.share_info("t").unwrap();
    assert_eq!(info.use_count, 1);
    assert_eq!(info.remaining, 1);
    assert_eq!(s.get_share_at(at(2), "t").unwrap(), "x");
    assert_eq!(s.get_share_at(at(3), "t").err().unwrap(), ShareError::NotFound);
    assert!(s.can_count_read("t"));
}

#[test]
fn recreating_a_token_replaces_the_share() {
    let mut s = ShareStore::new();
    s.create_share_at(at(0), "t".to_string(), body("old", 5, 0)).unwrap();
    s.create_share_at(at(0), "t".to_string(), body("new", 5, 0)).unwrap();
    assert_eq!(s.get_share_at(at(1), "t").unwrap(), "new");
}

#[test]
fn shares_created_now_use_random_tokens() {
    let mut s = ShareStore::new();
    let r = s.create_share(body("hello", 5, 1)).unwrap();
    assert_eq!(r.token.len(), 36);
    assert_eq!(r.token.as_bytes()[14], b'4');
    assert_eq!(r.url, format!("https://krasava.xyz/api/share/{}", r.token));
    let r2 = s.create_share(body("other", 5, 1)).unwrap();
    assert_ne!(r.token, r2.token);
    assert_eq!(s.get_share(&r.token).unwrap(), "hello");
    assert_eq!(s.get_share(&r.token).err().unwrap(), ShareError::NotFound);
    assert_eq!(s.get_share(&r2.token).unwrap(), "other");
}

#[test]
fn too_late_clock_is_refused() {
    let mut s = ShareStore::new();
    let late = UtcTime { secs: MAX_TIMESTAMP - 3599, nanos: 0 };
    let e = s.create_share_at(late, "t".to_string(), body("x", 60, 0)).err().unwrap();
    assert_eq!(e, ShareError::ClockOutOfRange);
    assert_eq!(e.status(), 500);
    assert_eq!(s.share_info("t").err().unwrap(), ShareError::NotFound);
    assert_eq!(
        s.create_share_at(late, "t".to_string(), body("", 1, 0)).err().unwrap(),
        ShareError::EmptyContent
    );
    let ok = UtcTime { secs: MAX_TIMESTAMP - 3600, nanos: 999_999_999 };
    assert!(s.create_share_at(ok, "t".to_string(), body("x", 60, 0)).is_ok());
    let short = UtcTime { secs: MAX_TIMESTAMP - 100, nanos: 0 };
    assert!(s.create_share_at(short, "u".to_string(), body("x", 1, 0)).is_ok());
    let last_minute = UtcTime { secs: MAX_TIMESTAMP - 59, nanos: 0 };
    assert_eq!(
        s.create_share_at(last_minute, "v".to_string(), body("x", 1, 0)).err().unwrap(),
        ShareError::ClockOutOfRange
    );
}
