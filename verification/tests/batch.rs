use mp3_downloader_gui::batch::{
    batch_outcome_line, batch_query_line, batch_step, parse_batch_queries, BatchQuery, BatchStep,
};

#[test]
fn parses_dash_separated() {
    let qs = parse_batch_queries("Кино - Группа крови\nКороль и Лев - Circle of Life");
    assert_eq!(qs.len(), 2);
    assert_eq!(qs[0].artist, "Кино");
    assert_eq!(qs[0].title, "Группа крови");
    assert_eq!(qs[1].artist, "Король и Лев");
    assert_eq!(qs[1].title, "Circle of Life");
}

#[test]
fn parses_em_dash_and_en_dash() {
    let qs = parse_batch_queries("A \u{2014} B\nC \u{2013} D");
    assert_eq!(qs[0].artist, "A");
    assert_eq!(qs[0].title, "B");
    assert_eq!(qs[1].artist, "C");
    assert_eq!(qs[1].title, "D");
}

#[test]
fn parses_title_only() {
    let qs = parse_batch_queries("Yesterday");
    assert_eq!(qs.len(), 1);
    assert_eq!(qs[0].artist, "");
    assert_eq!(qs[0].title, "Yesterday");
}

#[test]
fn parses_url() {
    let qs = parse_batch_queries("https://example.com/track/123");
    assert_eq!(qs.len(), 1);
    assert_eq!(qs[0].url.as_deref(), Some("https://example.com/track/123"));
}

#[test]
fn skips_empty_and_comments() {
    let qs = parse_batch_queries("\n# комментарий\nКино - Звезда\n   \n# ещё\nA - B");
    assert_eq!(qs.len(), 2);
    assert_eq!(qs[0].title, "Звезда");
    assert_eq!(qs[1].title, "B");
}

#[test]
fn strips_numbering() {
    let qs = parse_batch_queries("1. Кино - Звезда\n12) A - B\n3)A - C");
    assert_eq!(qs.len(), 3);
    assert_eq!(qs[0].title, "Звезда");
    assert_eq!(qs[1].title, "B");
    assert_eq!(qs[2].title, "C");
}

#[test]
fn search_text_builds_query() {
    let q = BatchQuery {
        raw: String::new(),
        artist: "Кино".into(),
        title: "Звезда".into(),
        url: None,
    };
    assert_eq!(q.search_text(), "Кино - Звезда");
}

#[test]
fn trailing_comment_and_crlf_are_removed() {
    let qs = parse_batch_queries("Кино - Звезда # любимая\r\nA - B\r\n");
    assert_eq!(qs.len(), 2);
    assert_eq!(qs[0].artist, "Кино");
    assert_eq!(qs[0].title, "Звезда");
    assert_eq!(qs[0].raw, "Кино - Звезда");
    assert_eq!(qs[1].title, "B");
}

#[test]
fn url_is_case_insensitive_and_keeps_raw() {
    let qs = parse_batch_queries("  HTTPS://Example.com/a - b");
    assert_eq!(qs.len(), 1);
    assert_eq!(qs[0].url.as_deref(), Some("HTTPS://Example.com/a - b"));
    assert_eq!(qs[0].artist, "");
    assert_eq!(qs[0].title, "");
}

#[test]
fn hyphen_separator_wins_over_dashes() {
    let qs = parse_batch_queries("A \u{2014} B - C");
    assert_eq!(qs[0].artist, "A \u{2014} B");
    assert_eq!(qs[0].title, "C");
}

#[test]
fn numbering_without_dot_is_kept() {
    let qs = parse_batch_queries("1984 - Song\n7 Nation Army");
    assert_eq!(qs[0].artist, "1984");
    assert_eq!(qs[0].title, "Song");
    assert_eq!(qs[1].title, "7 Nation Army");
}

#[test]
fn search_text_falls_back_to_present_part() {
    let only_title = BatchQuery { raw: "x".into(), artist: String::new(), title: "T".into(), url: None };
    let only_artist = BatchQuery { raw: "x".into(), artist: "A".into(), title: String::new(), url: None };
    let none = BatchQuery { raw: "raw line".into(), artist: String::new(), title: String::new(), url: None };
    assert_eq!(only_title.search_text(), "T");
    assert_eq!(only_artist.search_text(), "A");
    assert_eq!(none.search_text(), "raw line");
}

#[test]
fn empty_input_gives_no_queries() {
    assert!(parse_batch_queries("").is_empty());
    assert!(parse_batch_queries("\n \n\t\n#only\n").is_empty());
}

#[test]
fn batch_steps_take_urls_directly() {
    let qs = parse_batch_queries("Кино - Звезда\nhttps://youtu.be/x");
    match batch_step(&qs[0]) {
        BatchStep::Search(t) => assert_eq!(t, "Кино - Звезда"),
        _ => panic!("expected a search"),
    }
    match batch_step(&qs[1]) {
        BatchStep::Direct(u) => assert_eq!(u, "https://youtu.be/x"),
        _ => panic!("expected a direct link"),
    }
    assert_eq!(batch_query_line(1, 2, "Кино - Звезда"), "[1/2] 🔎 Кино - Звезда");
    assert_eq!(batch_outcome_line(1, 2, Ok(7)), "  ✓ 1/2: найдено 7");
    assert_eq!(batch_outcome_line(2, 2, Err("нет")), "  ✗ 2/2: нет");
}

#[test]
fn input_split_at_a_line_break_splits_the_queries() {
    let a = "1. Queen - Bohemian Rhapsody\n# a comment";
    let b = "Muse – Uprising\nhttps://example.com/x.mp3";
    let joined = format!("{}\n{}", a, b);
    let mut expected = parse_batch_queries(a);
    expected.extend(parse_batch_queries(b));
    assert_eq!(parse_batch_queries(&joined), expected);
    assert_eq!(expected.len(), 3);
    let c = "Queen - Innuendo\r";
    let mut expected = parse_batch_queries(c);
    expected.extend(parse_batch_queries(b));
    assert_eq!(parse_batch_queries(&format!("{}\n{}", c, b)), expected);
}

#[test]
fn search_text_reads_back_as_the_same_query() {
    let qs = parse_batch_queries("  2) Daft Punk – One More Time # live\nKaleidoscope");
    assert_eq!(qs.len(), 2);
    for q in &qs {
        let st = q.search_text();
        let back = parse_batch_queries(&st);
        assert_eq!(
            back,
            vec![BatchQuery { raw: st.clone(), artist: q.artist.clone(), title: q.title.clone(), url: None }]
        );
    }
    assert_eq!(qs[0].search_text(), "Daft Punk - One More Time");
}
