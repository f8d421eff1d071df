//! MP3Party HTML pages: a track page read into a track, a search page into results,
//! and the download URLs a track page offers.
//!
//! HTML is parsed and CSS selectors are matched by the `scraper` crate; the attribute
//! values and texts it finds are named here and the reading built on them is verified.
use vstd::prelude::*;
use vstd::slice::slice_subrange;
use crate::patterns::{group, groups_view};
use crate::sources::{
    cat, cat3, cap_or_empty, contains_id, has_id, mp3party_download_url, mp3party_stream_url, replace_all,
    replace_str, spec_mp3party_download_url, spec_mp3party_stream_url, tviews, views,
};
use crate::text::{
    chars_of, find, find_in, lemma_find_from_bounds, opt_string_view, owned, starts_with,
    str_starts_with, string_from_chars, trim, trim_bounds,
};
use crate::types::{TrackInfo, TrackModel};
use crate::ytdlp::join;

verus! {

broadcast use vstd::string::group_string_axioms;

pub open spec fn names_view(names: Seq<&str>) -> Seq<Seq<char>> {
    names.map_values(|n: &str| n@)
}

/// For each element of the document `body` matching the CSS selector, in document
/// order, the values of the attributes `names`.
pub uninterp spec fn spec_html_select_attrs(
    body: Seq<char>,
    selector: Seq<char>,
    names: Seq<Seq<char>>,
) -> Seq<Seq<Option<Seq<char>>>>;

/// For each element matching `outer`, the attributes `names` of its first descendant
/// matching `inner` (`None` when it has none).
pub uninterp spec fn spec_html_nested_first_attrs(
    body: Seq<char>,
    outer: Seq<char>,
    inner: Seq<char>,
    names: Seq<Seq<char>>,
) -> Seq<Option<Seq<Option<Seq<char>>>>>;

/// Text of the first element matching the selector (its text nodes concatenated).
pub uninterp spec fn spec_html_first_text(body: Seq<char>, selector: Seq<char>) -> Option<Seq<char>>;

/// `scraper::Html::parse_document(body)`, `Selector::parse(selector)`, `Html::select`,
/// and `Element::attr` for each name: the result depends on the page, the selector
/// and the names only, and is named [`spec_html_select_attrs`].  A selector that does
/// not parse matches nothing.
#[verifier::external_body]
fn html_select_attrs(body: &str, selector: &str, names: &[&str]) -> (r: Vec<Vec<Option<String>>>)
    ensures
        r@.len() == spec_html_select_attrs(body@, selector@, names_view(names@)).len(),
        forall|i: int|
            0 <= i < r@.len() ==> groups_view(#[trigger] r@[i]@) == spec_html_select_attrs(
                body@,
                selector@,
                names_view(names@),
            )[i],
{
    let doc = scraper::Html::parse_document(body);
    let sel = match scraper::Selector::parse(selector) {
        Ok(s) => s,
        Err(_) => return Vec::new(),
    };
    doc.select(&sel)
        .map(|el| names.iter().map(|n| el.value().attr(n).map(|v| v.to_string())).collect())
        .collect()
}

/// `scraper`: each element matching `outer`, then `ElementRef::select(inner).next()`
/// and its attributes `names`; named [`spec_html_nested_first_attrs`].  Selectors that
/// do not parse match nothing.
#[verifier::external_body]
fn html_nested_first_attrs(body: &str, outer: &str, inner: &str, names: &[&str]) -> (r: Vec<
    Option<Vec<Option<String>>>,
>)
    ensures
        r@.len() == spec_html_nested_first_attrs(body@, outer@, inner@, names_view(names@)).len(),
        forall|i: int|
            0 <= i < r@.len() ==> match #[trigger] r@[i] {
                Some(g) => spec_html_nested_first_attrs(body@, outer@, inner@, names_view(names@))[i]
                    == Some(groups_view(g@)),
                None => spec_html_nested_first_attrs(body@, outer@, inner@, names_view(names@))[i] is None,
            },
{
    let doc = scraper::Html::parse_document(body);
    let (o, i) = match (scraper::Selector::parse(outer), scraper::Selector::parse(inner)) {
        (Ok(o), Ok(i)) => (o, i),
        _ => return Vec::new(),
    };
    doc.select(&o)
        .map(|el| el.select(&i).next().map(|p| names.iter().map(|n| p.value().attr(n).map(|v| v.to_string())).collect()))
        .collect()
}

/// `scraper`: the first element matching the selector and `ElementRef::text()`
/// collected into a `String`; named [`spec_html_first_text`].  A selector that does
/// not parse matches nothing.
#[verifier::external_body]
fn html_first_text(body: &str, selector: &str) -> (r: Option<String>)
    ensures
        opt_string_view(r) == spec_html_first_text(body@, selector@),
{
    let doc = scraper::Html::parse_document(body);
    let sel = scraper::Selector::parse(selector).ok()?;
    doc.select(&sel).next().map(|el| el.text().collect::<String>())
}

fn trimmed(s: &str) -> (r: String)
    ensures
        r@ == trim(s@),
{
    let cs = chars_of(s);
    let (a, b) = trim_bounds(cs.as_slice());
    string_from_chars(slice_subrange(cs.as_slice(), a, b))
}

fn group_of(g: &Vec<Option<String>>, k: usize) -> (r: Option<String>)
    ensures
        opt_string_view(r) == group(groups_view(g@), k as int),
{
    if k < g.len() {
        match &g[k] {
            Some(s) => Some(s.clone()),
            None => None,
        }
    } else {
        None
    }
}

// ---------------------------------------------------------------- track page

pub open spec fn panel_names() -> Seq<Seq<char>> {
    seq!["data-js-artist-name"@, "data-js-song-title"@, "data-js-id"@, "data-js-url"@]
}

/// Artist and title from the first track panel's data attributes.
pub open spec fn from_panel(body: Seq<char>) -> (Seq<char>, Seq<char>) {
    let ps = spec_html_select_attrs(body, "div.track__user-panel"@, panel_names());
    if ps.len() > 0 {
        (cap_or_empty(ps[0], 0), cap_or_empty(ps[0], 1))
    } else {
        (seq![], seq![])
    }
}

/// Missing parts filled from the `og:title` meta tag: `artist - title` splits at the
/// first `" - "`, otherwise the whole text is the title.
pub open spec fn with_og_title(body: Seq<char>, at: (Seq<char>, Seq<char>)) -> (Seq<char>, Seq<char>) {
    let (artist, title) = at;
    if artist.len() > 0 && title.len() > 0 {
        at
    } else {
        let og = spec_html_select_attrs(body, "meta[property=\"og:title\"]"@, seq!["content"@]);
        if og.len() > 0 && group(og[0], 0) is Some {
            let content = group(og[0], 0)->0;
            match find(content, " - "@) {
                Some(i) if artist.len() == 0 => (
                    trim(content.subrange(0, i)),
                    trim(content.subrange(i + 3, content.len() as int)),
                ),
                _ => if title.len() == 0 {
                    (artist, content)
                } else {
                    at
                },
            }
        } else {
            at
        }
    }
}

/// A hyphen, em dash or en dash.
pub open spec fn is_dash(c: char) -> bool {
    c == '-' || c == '\u{2014}' || c == '\u{2013}'
}

/// `s` split at every dash, like `str::split` with a character set.
pub open spec fn dash_pieces(s: Seq<char>) -> Seq<Seq<char>>
    decreases s.len(),
{
    if s.len() == 0 {
        seq![seq![]]
    } else {
        let r = dash_pieces(s.drop_last());
        if is_dash(s.last()) {
            r.push(seq![])
        } else {
            r.update(r.len() - 1, r.last().push(s.last()))
        }
    }
}

pub proof fn lemma_dash_pieces_nonempty(s: Seq<char>)
    ensures
        dash_pieces(s).len() > 0,
    decreases s.len(),
{
    if s.len() > 0 {
        lemma_dash_pieces_nonempty(s.drop_last());
    }
}

/// The pieces trimmed, empty ones dropped.
pub open spec fn trimmed_nonempty(ps: Seq<Seq<char>>) -> Seq<Seq<char>>
    decreases ps.len(),
{
    if ps.len() == 0 {
        seq![]
    } else {
        let r = trimmed_nonempty(ps.drop_last());
        if trim(ps.last()).len() > 0 {
            r.push(trim(ps.last()))
        } else {
            r
        }
    }
}

/// The `<title>` text with the site's download phrases removed, trimmed.
pub open spec fn clean_title_text(t: Seq<char>) -> Seq<char> {
    trim(
        replace_all(
            replace_all(replace_all(t, "скачать mp3"@, seq![]), "Скачать"@, seq![]),
            "mp3party.net"@,
            seq![],
        ),
    )
}

/// Missing parts filled from the page `<title>`: the dash-separated parts give the
/// artist (first) and the title (the rest, joined by `" - "`); a title without dashes
/// becomes the title when nothing is known yet.
pub open spec fn with_page_title(body: Seq<char>, at: (Seq<char>, Seq<char>)) -> (Seq<char>, Seq<char>) {
    let (artist, title) = at;
    if artist.len() > 0 && title.len() > 0 {
        at
    } else {
        match spec_html_first_text(body, "title"@) {
            Some(text) => {
                let clean = clean_title_text(text);
                let parts = trimmed_nonempty(dash_pieces(clean));
                if parts.len() >= 2 {
                    (
                        if artist.len() == 0 {
                            parts[0]
                        } else {
                            artist
                        },
                        if title.len() == 0 {
                            join(parts.drop_first(), " - "@)
                        } else {
                            title
                        },
                    )
                } else if artist.len() == 0 && title.len() == 0 {
                    (artist, clean)
                } else {
                    at
                }
            },
            None => at,
        }
    }
}

/// A still missing title taken from the first `<h1>`, and finally `Трек #id`.
pub open spec fn with_fallback_title(body: Seq<char>, id: Seq<char>, at: (Seq<char>, Seq<char>)) -> (Seq<char>, Seq<char>) {
    let (artist, title) = at;
    let t1 = if title.len() == 0 {
        match spec_html_first_text(body, "h1"@) {
            Some(h) => trim(h),
            None => title,
        }
    } else {
        title
    };
    (artist, if t1.len() == 0 {
        "Трек #"@ + id
    } else {
        t1
    })
}

/// Stream URL of a track page: the first panel's own `http` URL when the panel is
/// this track's, else the site's online URL for the id.
pub open spec fn page_stream_url(body: Seq<char>, id: Seq<char>) -> Seq<char> {
    let ps = spec_html_select_attrs(body, "div.track__user-panel"@, panel_names());
    if ps.len() > 0 && group(ps[0], 2) == Some(id) && group(ps[0], 3) is Some && starts_with(
        group(ps[0], 3)->0,
        "http"@,
    ) {
        group(ps[0], 3)->0
    } else {
        spec_mp3party_stream_url(id)
    }
}

/// The track an MP3Party track page describes.
pub open spec fn spec_parse_track_page(body: Seq<char>, id: Seq<char>) -> TrackModel {
    let at = with_fallback_title(
        body,
        id,
        with_page_title(body, with_og_title(body, from_panel(body))),
    );
    TrackModel { id, artist: trim(at.0), title: trim(at.1), url: page_stream_url(body, id) }
}

fn panel_attrs(body: &str) -> (r: Vec<Vec<Option<String>>>)
    ensures
        r@.len() == spec_html_select_attrs(body@, "div.track__user-panel"@, panel_names()).len(),
        forall|i: int|
            0 <= i < r@.len() ==> groups_view(#[trigger] r@[i]@) == spec_html_select_attrs(
                body@,
                "div.track__user-panel"@,
                panel_names(),
            )[i],
{
    let names = ["data-js-artist-name", "data-js-song-title", "data-js-id", "data-js-url"];
    assert(names_view(names@) =~= panel_names());
    html_select_attrs(body, "div.track__user-panel", &names)
}

fn or_empty(o: Option<String>) -> (r: String)
    ensures
        r@ == match opt_string_view(o) {
            Some(x) => x,
            None => seq![],
        },
{
    match o {
        Some(s) => s,
        None => String::new(),
    }
}

fn og_fill(body: &str, artist: String, title: String) -> (r: (String, String))
    ensures
        (r.0@, r.1@) == with_og_title(body@, (artist@, title@)),
{
    if !artist.as_str().is_empty() && !title.as_str().is_empty() {
        return (artist, title);
    }
    let names = ["content"];
    assert(names_view(names@) =~= seq!["content"@]);
    let og = html_select_attrs(body, "meta[property=\"og:title\"]", &names);
    if og.len() == 0 {
        return (artist, title);
    }
    let content = match group_of(&og[0], 0) {
        Some(c) => c,
        None => return (artist, title),
    };
    let cc = chars_of(content.as_str());
    let sep = chars_of(" - ");
    proof {
        reveal_strlit(" - ");
    }
    assert(sep@.len() == 3);
    match find_in(cc.as_slice(), sep.as_slice()) {
        Some(i) if artist.as_str().is_empty() => {
            proof {
                lemma_find_from_bounds(cc@, sep@, 0);
                assert(crate::text::matches_at(cc@, sep@, i as int));
            }
            let n = cc.len();
            assert(i + 3 <= n);
            let a = string_from_chars(slice_subrange(cc.as_slice(), 0, i));
            let t = string_from_chars(slice_subrange(cc.as_slice(), i + 3, n));
            (trimmed(a.as_str()), trimmed(t.as_str()))
        },
        _ => {
            if title.as_str().is_empty() {
                (artist, content)
            } else {
                (artist, title)
            }
        },
    }
}

fn dash_pieces_of(s: &[char]) -> (r: Vec<Vec<char>>)
    ensures
        r@.map_values(|p: Vec<char>| p@) == dash_pieces(s@),
{
    let mut out: Vec<Vec<char>> = Vec::new();
    out.push(Vec::new());
    let mut i: usize = 0;
    assert(out@.map_values(|p: Vec<char>| p@) =~= dash_pieces(s@.subrange(0, 0)));
    while i < s.len()
        invariant
            i <= s@.len(),
            out@.len() > 0,
            out@.map_values(|p: Vec<char>| p@) == dash_pieces(s@.subrange(0, i as int)),
        decreases s@.len() - i,
    {
        let c = s[i];
        let ghost before = out@.map_values(|p: Vec<char>| p@);
        assert(s@.subrange(0, i + 1).drop_last() =~= s@.subrange(0, i as int));
        if c == '-' || c == '\u{2014}' || c == '\u{2013}' {
            out.push(Vec::new());
            assert(out@.map_values(|p: Vec<char>| p@) =~= before.push(seq![]));
        } else {
            let last = out.len() - 1;
            let mut piece = out.remove(last);
            piece.push(c);
            out.push(piece);
            assert(out@.map_values(|p: Vec<char>| p@) =~= before.update(
                before.len() - 1,
                before.last().push(c),
            ));
        }
        i = i + 1;
    }
    assert(s@.subrange(0, s@.len() as int) =~= s@);
    out
}

fn trimmed_nonempty_of(ps: &Vec<Vec<char>>) -> (r: Vec<String>)
    ensures
        views(r@) == trimmed_nonempty(ps@.map_values(|p: Vec<char>| p@)),
{
    let ghost pv = ps@.map_values(|p: Vec<char>| p@);
    let mut out: Vec<String> = Vec::new();
    let mut i: usize = 0;
    while i < ps.len()
        invariant
            pv == ps@.map_values(|p: Vec<char>| p@),
            i <= ps@.len(),
            views(out@) == trimmed_nonempty(pv.take(i as int)),
        decreases ps@.len() - i,
    {
        assert(pv.take(i + 1).drop_last() =~= pv.take(i as int));
        assert(pv.take(i + 1).last() == ps@[i as int]@);
        let (a, b) = trim_bounds(ps[i].as_slice());
        if b > a {
            let t = string_from_chars(slice_subrange(ps[i].as_slice(), a, b));
            let ghost before = views(out@);
            out.push(t);
            assert(views(out@) =~= before.push(t@));
        }
        i = i + 1;
    }
    assert(pv.take(ps@.len() as int) =~= pv);
    out
}

fn join_from_second(parts: &Vec<String>) -> (r: String)
    requires
        parts@.len() >= 2,
    ensures
        r@ == join(views(parts@).drop_first(), " - "@),
{
    let ghost all = views(parts@).drop_first();
    let mut s = parts[1].clone();
    let mut k: usize = 2;
    assert(all.take(1).len() == 1);
    assert(join(all.take(1), " - "@) == all[0]);
    while k < parts.len()
        invariant
            2 <= k <= parts@.len(),
            all == views(parts@).drop_first(),
            s@ == join(all.take(k - 1), " - "@),
        decreases parts@.len() - k,
    {
        s.append(" - ");
        s.append(parts[k].as_str());
        assert(all.take(k as int).drop_last() =~= all.take(k - 1));
        assert(all.take(k as int).last() == parts@[k as int]@);
        k = k + 1;
    }
    assert(all.take(parts@.len() - 1) =~= all);
    s
}

fn page_title_fill(body: &str, artist: String, title: String) -> (r: (String, String))
    ensures
        (r.0@, r.1@) == with_page_title(body@, (artist@, title@)),
{
    if !artist.as_str().is_empty() && !title.as_str().is_empty() {
        return (artist, title);
    }
    let text = match html_first_text(body, "title") {
        Some(t) => t,
        None => return (artist, title),
    };
    let a1 = replace_str(text.as_str(), "скачать mp3", "");
    let a2 = replace_str(a1.as_str(), "Скачать", "");
    let a3 = replace_str(a2.as_str(), "mp3party.net", "");
    proof {
        reveal_strlit("");
        assert(""@ =~= Seq::<char>::empty());
    }
    let clean = trimmed(a3.as_str());
    assert(clean@ == clean_title_text(text@));
    let cc = chars_of(clean.as_str());
    let pieces = dash_pieces_of(cc.as_slice());
    let parts = trimmed_nonempty_of(&pieces);
    assert(views(parts@) == trimmed_nonempty(dash_pieces(clean@)));
    if parts.len() >= 2 {
        assert(views(parts@)[0] == parts@[0]@);
        let new_artist = if artist.as_str().is_empty() {
            parts[0].clone()
        } else {
            artist
        };
        let new_title = if title.as_str().is_empty() {
            join_from_second(&parts)
        } else {
            title
        };
        (new_artist, new_title)
    } else if artist.as_str().is_empty() && title.as_str().is_empty() {
        (artist, clean)
    } else {
        (artist, title)
    }
}

fn fallback_title_fill(body: &str, id: &str, artist: String, title: String) -> (r: (String, String))
    ensures
        (r.0@, r.1@) == with_fallback_title(body@, id@, (artist@, title@)),
{
    let t1 = if title.as_str().is_empty() {
        match html_first_text(body, "h1") {
            Some(h) => trimmed(h.as_str()),
            None => title,
        }
    } else {
        title
    };
    if t1.as_str().is_empty() {
        (artist, cat("Трек #", id))
    } else {
        (artist, t1)
    }
}

/// Read an MP3Party track page into the track `id`.
///
/// Every page gives a track: whatever the page lacks is filled in from the id.
pub fn parse_track_page(body: &str, id: &str) -> (r: Result<TrackInfo, String>)
    ensures
        r matches Ok(t) && t@ == spec_parse_track_page(body@, id@),
{
    let ps = panel_attrs(body);
    let (artist, title) = if ps.len() > 0 {
        (or_empty(group_of(&ps[0], 0)), or_empty(group_of(&ps[0], 1)))
    } else {
        (String::new(), String::new())
    };
    let (artist, title) = og_fill(body, artist, title);
    let (artist, title) = page_title_fill(body, artist, title);
    let (artist, title) = fallback_title_fill(body, id, artist, title);
    let mut url = mp3party_stream_url(id);
    if ps.len() > 0 {
        if let Some(pid) = group_of(&ps[0], 2) {
            if crate::types::str_eq(pid.as_str(), id) {
                if let Some(u) = group_of(&ps[0], 3) {
                    if str_starts_with(u.as_str(), "http") {
                        url = u;
                    }
                }
            }
        }
    }
    Ok(TrackInfo {
        id: owned(id),
        artist: trimmed(artist.as_str()),
        title: trimmed(title.as_str()),
        url,
    })
}

// ---------------------------------------------------------------- search page

pub open spec fn search_names() -> Seq<Seq<char>> {
    seq!["data-js-id"@, "data-js-artist-name"@, "data-js-song-title"@, "data-js-url"@]
}

/// The track a panel's data attributes describe, when it has an id and a title; its
/// own `http` URL is kept, otherwise the site's online URL for the id is used.
pub open spec fn panel_track(g: Seq<Option<Seq<char>>>) -> Option<TrackModel> {
    let id = cap_or_empty(g, 0);
    let title = cap_or_empty(g, 2);
    if id.len() == 0 || title.len() == 0 {
        None
    } else {
        let url = if group(g, 3) is Some && starts_with(group(g, 3)->0, "http"@) {
            group(g, 3)->0
        } else {
            spec_mp3party_stream_url(id)
        };
        Some(TrackModel { id, artist: cap_or_empty(g, 1), title, url })
    }
}

/// Tracks of the first `n` panels, in order (`None` stands for a result item that has
/// no panel).
pub open spec fn panel_tracks(gs: Seq<Option<Seq<Option<Seq<char>>>>>, n: int) -> Seq<TrackModel>
    decreases n,
{
    if n <= 0 {
        seq![]
    } else {
        let r = panel_tracks(gs, n - 1);
        match gs[n - 1] {
            Some(g) => match panel_track(g) {
                Some(t) => r.push(t),
                None => r,
            },
            None => r,
        }
    }
}

pub open spec fn all_present(gs: Seq<Seq<Option<Seq<char>>>>) -> Seq<Option<Seq<Option<Seq<char>>>>> {
    gs.map_values(|g: Seq<Option<Seq<char>>>| Some(g))
}

/// The tracks in order, each one whose id came before dropped.
pub open spec fn unique_by_id(ts: Seq<TrackModel>) -> Seq<TrackModel>
    decreases ts.len(),
{
    if ts.len() == 0 {
        seq![]
    } else {
        let r = unique_by_id(ts.drop_last());
        if has_id(r, ts.last().id) {
            r
        } else {
            r.push(ts.last())
        }
    }
}

/// Tracks of an MP3Party search page: the panel of each result item; failing that,
/// every panel; failing that, every element with a track id.  Repeated ids are kept
/// once; no track at all is "nothing found".
pub open spec fn spec_mp3party_search_results(body: Seq<char>, query: Seq<char>) -> Result<Seq<TrackModel>, Seq<char>> {
    let items = spec_html_nested_first_attrs(
        body,
        "div.track.song-item"@,
        "div.track__user-panel"@,
        search_names(),
    );
    let r1 = panel_tracks(items, items.len() as int);
    let panels = all_present(spec_html_select_attrs(body, "div.track__user-panel"@, search_names()));
    let r2 = panel_tracks(panels, panels.len() as int);
    let any = all_present(spec_html_select_attrs(body, "[data-js-id]"@, search_names()));
    let r3 = panel_tracks(any, any.len() as int);
    let r = if r1.len() > 0 {
        r1
    } else if r2.len() > 0 {
        r2
    } else {
        r3
    };
    let u = unique_by_id(r);
    if u.len() == 0 {
        Err("Ничего не найдено по запросу «"@ + query + "»."@)
    } else {
        Ok(u)
    }
}

/// No two tracks kept by [`unique_by_id`] share an id, and nothing is lost but repeats.
pub proof fn lemma_unique_by_id(ts: Seq<TrackModel>)
    ensures
        forall|i: int, j: int|
            0 <= i < j < unique_by_id(ts).len() ==> #[trigger] unique_by_id(ts)[i].id
                != #[trigger] unique_by_id(ts)[j].id,
        forall|k: int| 0 <= k < ts.len() ==> has_id(unique_by_id(ts), #[trigger] ts[k].id),
        unique_by_id(ts).len() <= ts.len(),
        ts.len() > 0 ==> unique_by_id(ts).len() > 0,
    decreases ts.len(),
{
    if ts.len() > 0 {
        let t = ts.drop_last();
        lemma_unique_by_id(t);
        let r = unique_by_id(t);
        let u = unique_by_id(ts);
        assert forall|k: int| 0 <= k < ts.len() implies has_id(u, #[trigger] ts[k].id) by {
            if k < ts.len() - 1 {
                assert(t[k] == ts[k]);
                assert(has_id(r, t[k].id));
                let m = choose|m: int| 0 <= m < r.len() && (#[trigger] r[m]).id == t[k].id;
                if !has_id(r, ts.last().id) {
                    assert(u[m] == r[m]);
                }
            } else {
                if !has_id(r, ts.last().id) {
                    assert(u[r.len() as int] == ts.last());
                }
            }
        }
        if !has_id(r, ts.last().id) {
            assert forall|i: int, j: int| 0 <= i < j < u.len() implies #[trigger] u[i].id
                != #[trigger] u[j].id by {
                if j == r.len() {
                    assert(u[i] == r[i]);
                }
            }
        }
    }
}

fn panel_track_of(g: &Vec<Option<String>>) -> (r: Option<TrackInfo>)
    ensures
        match r {
            Some(t) => panel_track(groups_view(g@)) == Some(t@),
            None => panel_track(groups_view(g@)) is None,
        },
{
    let id = or_empty(group_of(g, 0));
    let title = or_empty(group_of(g, 2));
    if id.as_str().is_empty() || title.as_str().is_empty() {
        return None;
    }
    let artist = or_empty(group_of(g, 1));
    let url = match group_of(g, 3) {
        Some(u) => if str_starts_with(u.as_str(), "http") {
            u
        } else {
            mp3party_stream_url(id.as_str())
        },
        None => mp3party_stream_url(id.as_str()),
    };
    Some(TrackInfo { id, artist, title, url })
}

/// Add the track a panel describes (its attributes [`search_names`]) to `results`,
/// when it has an id and a title.
pub fn extract_from_panel(g: &Vec<Option<String>>, out: &mut Vec<TrackInfo>)
    ensures
        tviews(final(out)@) == match panel_track(groups_view(g@)) {
            Some(t) => tviews(old(out)@).push(t),
            None => tviews(old(out)@),
        },
{
    let ghost before = tviews(out@);
    if let Some(t) = panel_track_of(g) {
        out.push(t);
        assert(tviews(out@) =~= before.push(out@.last()@));
    }
}

fn item_tracks(body: &str) -> (r: Vec<TrackInfo>)
    ensures
        tviews(r@) == panel_tracks(
            spec_html_nested_first_attrs(body@, "div.track.song-item"@, "div.track__user-panel"@, search_names()),
            spec_html_nested_first_attrs(body@, "div.track.song-item"@, "div.track__user-panel"@, search_names()).len() as int,
        ),
{
    let names = ["data-js-id", "data-js-artist-name", "data-js-song-title", "data-js-url"];
    assert(names_view(names@) =~= search_names());
    let items = html_nested_first_attrs(body, "div.track.song-item", "div.track__user-panel", &names);
    let ghost sv = spec_html_nested_first_attrs(
        body@,
        "div.track.song-item"@,
        "div.track__user-panel"@,
        search_names(),
    );
    let mut out: Vec<TrackInfo> = Vec::new();
    let mut i: usize = 0;
    while i < items.len()
        invariant
            items@.len() == sv.len(),
            forall|k: int|
                0 <= k < items@.len() ==> match #[trigger] items@[k] {
                    Some(g) => sv[k] == Some(groups_view(g@)),
                    None => sv[k] is None,
                },
            i <= items@.len(),
            tviews(out@) == panel_tracks(sv, i as int),
        decreases items@.len() - i,
    {
        match &items[i] {
            Some(g) => {
                extract_from_panel(g, &mut out);
            },
            None => {},
        }
        i = i + 1;
    }
    out
}

fn selected_tracks(body: &str, selector: &str) -> (r: Vec<TrackInfo>)
    ensures
        tviews(r@) == panel_tracks(
            all_present(spec_html_select_attrs(body@, selector@, search_names())),
            spec_html_select_attrs(body@, selector@, search_names()).len() as int,
        ),
{
    let names = ["data-js-id", "data-js-artist-name", "data-js-song-title", "data-js-url"];
    assert(names_view(names@) =~= search_names());
    let els = html_select_attrs(body, selector, &names);
    let ghost sv = all_present(spec_html_select_attrs(body@, selector@, search_names()));
    let mut out: Vec<TrackInfo> = Vec::new();
    let mut i: usize = 0;
    while i < els.len()
        invariant
            els@.len() == sv.len(),
            forall|k: int| 0 <= k < els@.len() ==> sv[k] == Some(groups_view(#[trigger] els@[k]@)),
            i <= els@.len(),
            tviews(out@) == panel_tracks(sv, i as int),
        decreases els@.len() - i,
    {
        extract_from_panel(&els[i], &mut out);
        i = i + 1;
    }
    out
}

fn unique_tracks(ts: Vec<TrackInfo>) -> (r: Vec<TrackInfo>)
    ensures
        tviews(r@) == unique_by_id(tviews(ts@)),
{
    let ghost tv = tviews(ts@);
    let mut out: Vec<TrackInfo> = Vec::new();
    let mut i: usize = 0;
    while i < ts.len()
        invariant
            tv == tviews(ts@),
            i <= ts@.len(),
            tviews(out@) == unique_by_id(tv.take(i as int)),
        decreases ts@.len() - i,
    {
        assert(tv.take(i + 1).drop_last() =~= tv.take(i as int));
        assert(tv.take(i + 1).last() == ts@[i as int]@);
        if !contains_id(&out, &ts[i].id) {
            let ghost before = tviews(out@);
            out.push(ts[i].clone());
            assert(tviews(out@) =~= before.push(ts@[i as int]@));
        }
        i = i + 1;
    }
    assert(tv.take(ts@.len() as int) =~= tv);
    out
}

/// Read an MP3Party search page for `query` into its tracks.
pub fn mp3party_search_results(body: &str, query: &str) -> (r: Result<Vec<TrackInfo>, String>)
    ensures
        match r {
            Ok(v) => spec_mp3party_search_results(body@, query@) == Ok::<Seq<TrackModel>, Seq<char>>(tviews(v@)),
            Err(e) => spec_mp3party_search_results(body@, query@) == Err::<Seq<TrackModel>, Seq<char>>(e@),
        },
{
    let mut results = item_tracks(body);
    if results.len() == 0 {
        results = selected_tracks(body, "div.track__user-panel");
    }
    if results.len() == 0 {
        results = selected_tracks(body, "[data-js-id]");
    }
    let unique = unique_tracks(results);
    if unique.len() == 0 {
        Err(cat3("Ничего не найдено по запросу «", query, "»."))
    } else {
        Ok(unique)
    }
}

// ---------------------------------------------------------------- download candidates

/// `url` added at the end when it is an `http` URL not listed yet.
pub open spec fn push_unique(list: Seq<Seq<char>>, url: Seq<char>) -> Seq<Seq<char>> {
    if starts_with(url, "http"@) && !list.contains(url) {
        list.push(url)
    } else {
        list
    }
}

/// For each of the first `n` elements whose attribute 0 is `id`, its attribute 1
/// added by [`push_unique`].
pub open spec fn push_matching(
    list: Seq<Seq<char>>,
    gs: Seq<Seq<Option<Seq<char>>>>,
    id: Seq<char>,
    n: int,
) -> Seq<Seq<char>>
    decreases n,
{
    if n <= 0 {
        list
    } else {
        let r = push_matching(list, gs, id, n - 1);
        let g = gs[n - 1];
        if group(g, 0) == Some(id) && group(g, 1) is Some {
            push_unique(r, group(g, 1)->0)
        } else {
            r
        }
    }
}

/// URLs to try for downloading `track` from its MP3Party page, in order: the page's
/// download buttons for this track, the site's download URL, this track's panel URLs,
/// the track's own URL, the site's online URL.  Only `http` URLs, each once.
pub open spec fn spec_mp3party_download_candidates(body: Seq<char>, track: TrackModel) -> Seq<Seq<char>> {
    let btns = spec_html_select_attrs(
        body,
        "a.js-dw-btn[data-track-id]"@,
        seq!["data-track-id"@, "href"@],
    );
    let c1 = push_matching(seq![], btns, track.id, btns.len() as int);
    let c2 = push_unique(c1, spec_mp3party_download_url(track.id));
    let panels = spec_html_select_attrs(
        body,
        "div.track__user-panel"@,
        seq!["data-js-id"@, "data-js-url"@],
    );
    let c3 = push_matching(c2, panels, track.id, panels.len() as int);
    let c4 = if starts_with(track.url, "http"@) {
        push_unique(c3, track.url)
    } else {
        c3
    };
    push_unique(c4, spec_mp3party_stream_url(track.id))
}

pub open spec fn http_and_distinct(list: Seq<Seq<char>>) -> bool {
    &&& forall|k: int| 0 <= k < list.len() ==> starts_with(#[trigger] list[k], "http"@)
    &&& forall|i: int, j: int| 0 <= i < j < list.len() ==> #[trigger] list[i] != #[trigger] list[j]
}

proof fn lemma_push_unique(list: Seq<Seq<char>>, url: Seq<char>)
    requires
        http_and_distinct(list),
    ensures
        http_and_distinct(push_unique(list, url)),
        forall|u: Seq<char>| list.contains(u) ==> #[trigger] push_unique(list, url).contains(u),
        starts_with(url, "http"@) ==> push_unique(list, url).contains(url),
{
    let r = push_unique(list, url);
    if starts_with(url, "http"@) && !list.contains(url) {
        assert(r[list.len() as int] == url);
        assert forall|u: Seq<char>| list.contains(u) implies #[trigger] r.contains(u) by {
            let k = choose|k: int| 0 <= k < list.len() && list[k] == u;
            assert(r[k] == u);
        }
        assert forall|i: int, j: int| 0 <= i < j < r.len() implies #[trigger] r[i] != #[trigger] r[j] by {
            if j == list.len() {
                assert(r[i] == list[i]);
            }
        }
    }
}

proof fn lemma_push_matching(list: Seq<Seq<char>>, gs: Seq<Seq<Option<Seq<char>>>>, id: Seq<char>, n: int)
    requires
        http_and_distinct(list),
    ensures
        http_and_distinct(push_matching(list, gs, id, n)),
        forall|u: Seq<char>| list.contains(u) ==> #[trigger] push_matching(list, gs, id, n).contains(u),
    decreases n,
{
    if n > 0 {
        lemma_push_matching(list, gs, id, n - 1);
        let r = push_matching(list, gs, id, n - 1);
        let g = gs[n - 1];
        if group(g, 0) == Some(id) && group(g, 1) is Some {
            lemma_push_unique(r, group(g, 1)->0);
        }
    }
}

/// Every download candidate is an `http` URL, none comes twice, and the site's
/// download URL and online URL for the track are always among them.
pub proof fn lemma_download_candidates(body: Seq<char>, track: TrackModel)
    ensures
        http_and_distinct(spec_mp3party_download_candidates(body, track)),
        spec_mp3party_download_candidates(body, track).contains(spec_mp3party_download_url(track.id)),
        spec_mp3party_download_candidates(body, track).contains(spec_mp3party_stream_url(track.id)),
{
    reveal_strlit("http");
    reveal_strlit("https://dl2.mp3party.net/download/");
    reveal_strlit("https://dl2.mp3party.net/online/");
    let btns = spec_html_select_attrs(
        body,
        "a.js-dw-btn[data-track-id]"@,
        seq!["data-track-id"@, "href"@],
    );
    let e: Seq<Seq<char>> = seq![];
    lemma_push_matching(e, btns, track.id, btns.len() as int);
    let c1 = push_matching(e, btns, track.id, btns.len() as int);
    let d = spec_mp3party_download_url(track.id);
    assert(d.subrange(0, 4) =~= "http"@);
    lemma_push_unique(c1, d);
    let c2 = push_unique(c1, d);
    let panels = spec_html_select_attrs(
        body,
        "div.track__user-panel"@,
        seq!["data-js-id"@, "data-js-url"@],
    );
    lemma_push_matching(c2, panels, track.id, panels.len() as int);
    let c3 = push_matching(c2, panels, track.id, panels.len() as int);
    if starts_with(track.url, "http"@) {
        lemma_push_unique(c3, track.url);
    }
    let c4 = if starts_with(track.url, "http"@) {
        push_unique(c3, track.url)
    } else {
        c3
    };
    let o = spec_mp3party_stream_url(track.id);
    assert(o.subrange(0, 4) =~= "http"@);
    lemma_push_unique(c4, o);
}

fn list_contains(list: &Vec<String>, u: &String) -> (b: bool)
    ensures
        b == views(list@).contains(u@),
{
    let mut k: usize = 0;
    while k < list.len()
        invariant
            k <= list@.len(),
            forall|m: int| 0 <= m < k ==> views(list@)[m] != u@,
        decreases list@.len() - k,
    {
        if list[k] == *u {
            assert(views(list@)[k as int] == u@);
            return true;
        }
        k = k + 1;
    }
    false
}

fn push_unique_url(list: &mut Vec<String>, url: String)
    ensures
        views(final(list)@) == push_unique(views(old(list)@), url@),
{
    if str_starts_with(url.as_str(), "http") && !list_contains(list, &url) {
        let ghost before = views(list@);
        list.push(url);
        assert(views(list@) =~= before.push(list@.last()@));
    }
}

fn push_matching_urls(list: &mut Vec<String>, gs: &Vec<Vec<Option<String>>>, id: &String)
    ensures
        views(final(list)@) == push_matching(
            views(old(list)@),
            gs@.map_values(|g: Vec<Option<String>>| groups_view(g@)),
            id@,
            gs@.len() as int,
        ),
{
    let ghost gv = gs@.map_values(|g: Vec<Option<String>>| groups_view(g@));
    let ghost start = views(list@);
    let mut i: usize = 0;
    while i < gs.len()
        invariant
            gv == gs@.map_values(|g: Vec<Option<String>>| groups_view(g@)),
            i <= gs@.len(),
            views(list@) == push_matching(start, gv, id@, i as int),
        decreases gs@.len() - i,
    {
        let g = &gs[i];
        assert(gv[i as int] == groups_view(g@));
        match group_of(g, 0) {
            Some(tid) => {
                if tid == *id {
                    match group_of(g, 1) {
                        Some(href) => {
                            push_unique_url(list, href);
                        },
                        None => {},
                    }
                }
            },
            None => {},
        }
        i = i + 1;
    }
}

/// URLs to try, in order, for downloading `track` given its MP3Party page.
pub fn mp3party_download_candidates(page_body: &str, track: &TrackInfo) -> (r: Vec<String>)
    ensures
        views(r@) == spec_mp3party_download_candidates(page_body@, track@),
{
    let mut candidates: Vec<String> = Vec::new();
    let names_b = ["data-track-id", "href"];
    assert(names_view(names_b@) =~= seq!["data-track-id"@, "href"@]);
    let btns = html_select_attrs(page_body, "a.js-dw-btn[data-track-id]", &names_b);
    let ghost bspec = spec_html_select_attrs(
        page_body@,
        "a.js-dw-btn[data-track-id]"@,
        seq!["data-track-id"@, "href"@],
    );
    assert(btns@.map_values(|g: Vec<Option<String>>| groups_view(g@)) =~= bspec);
    assert(views(candidates@) =~= Seq::<Seq<char>>::empty());
    push_matching_urls(&mut candidates, &btns, &track.id);
    push_unique_url(&mut candidates, mp3party_download_url(track.id.as_str()));
    let names_p = ["data-js-id", "data-js-url"];
    assert(names_view(names_p@) =~= seq!["data-js-id"@, "data-js-url"@]);
    let panels = html_select_attrs(page_body, "div.track__user-panel", &names_p);
    let ghost pspec = spec_html_select_attrs(
        page_body@,
        "div.track__user-panel"@,
        seq!["data-js-id"@, "data-js-url"@],
    );
    assert(panels@.map_values(|g: Vec<Option<String>>| groups_view(g@)) =~= pspec);
    push_matching_urls(&mut candidates, &panels, &track.id);
    if str_starts_with(track.url.as_str(), "http") {
        push_unique_url(&mut candidates, track.url.clone());
    }
    push_unique_url(&mut candidates, mp3party_stream_url(track.id.as_str()));
    candidates
}

} // verus!
