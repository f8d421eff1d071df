//! Per-source rules: URLs of MP3Party, DriveMusic, Pesni.me and YouTube, and how
//! their pages and tool output are read into tracks.
use vstd::prelude::*;
use vstd::slice::slice_subrange;
use vstd::utf8::encode_utf8;
use crate::patterns::{
    group, groups_view, regex_captures_all, regex_find_all, spec_regex_captures_all,
    spec_regex_find_all, RE_DRIVEMUSIC_MP3, RE_DRIVEMUSIC_SEARCH, RE_PESNIME_TRACK,
};
use crate::text::{
    chars_of, contains, ends_with, find, find_in, lines, lines_of, opt_string_view, owned,
    slice_starts_with, spec_to_lowercase, starts_with, str_contains, str_ends_with,
    str_starts_with, string_from_chars, to_lowercase, trim, trim_bounds, is_whitespace,
    is_whitespace_char, lemma_find_from_bounds,
};
use crate::types::{TrackInfo, TrackModel, YtDlpFormat, DRIVEMUSIC_BASE, PESNIME_BASE};

verus! {

broadcast use vstd::string::group_string_axioms;

/// `a` followed by `b`.
pub fn cat(a: &str, b: &str) -> (r: String)
    ensures
        r@ == a@ + b@,
{
    let mut s = owned(a);
    s.append(b);
    s
}

/// `a`, `b`, `c` in a row.
pub fn cat3(a: &str, b: &str, c: &str) -> (r: String)
    ensures
        r@ == a@ + b@ + c@,
{
    let mut s = owned(a);
    s.append(b);
    s.append(c);
    s
}

fn trimmed(s: &str) -> (r: String)
    ensures
        r@ == trim(s@),
{
    let cs = chars_of(s);
    let (a, b) = trim_bounds(cs.as_slice());
    string_from_chars(slice_subrange(cs.as_slice(), a, b))
}

// ---------------------------------------------------------------- URLs

/// Bytes that `urlencoding::encode` leaves as they are.
pub open spec fn url_safe_byte(b: u8) -> bool {
    (48 <= b <= 57) || (65 <= b <= 90) || (97 <= b <= 122) || b == 45 || b == 46 || b == 95
        || b == 126
}

/// Upper-case hexadecimal digit.
pub open spec fn hex_upper(d: int) -> char {
    if d < 10 {
        crate::text::digit_char(d)
    } else if d == 10 {
        'A'
    } else if d == 11 {
        'B'
    } else if d == 12 {
        'C'
    } else if d == 13 {
        'D'
    } else if d == 14 {
        'E'
    } else {
        'F'
    }
}

/// Percent-encoding of a byte string: every byte but ASCII letters, digits and
/// `-._~` becomes `%XX`.
pub open spec fn url_encode_bytes(bs: Seq<u8>) -> Seq<char>
    decreases bs.len(),
{
    if bs.len() == 0 {
        seq![]
    } else {
        let b = bs[0];
        let head = if url_safe_byte(b) {
            seq![b as char]
        } else {
            seq!['%', hex_upper((b / 16) as int), hex_upper((b % 16) as int)]
        };
        head + url_encode_bytes(bs.drop_first())
    }
}

/// `urlencoding::encode` of a string: its UTF-8 bytes, percent-encoded.
pub open spec fn spec_url_encode(s: Seq<char>) -> Seq<char> {
    url_encode_bytes(encode_utf8(s))
}

/// `urlencoding::encode(s)`: percent-encodes every byte of the UTF-8 encoding of `s`
/// except ASCII alphanumerics and `-`, `.`, `_`, `~`, with upper-case hex digits
/// (urlencoding 2.1: `encode_into`, `to_hex_digit`).
#[verifier::external_body]
fn url_encode(s: &str) -> (r: String)
    ensures
        r@ == spec_url_encode(s@),
{
    urlencoding::encode(s).into_owned()
}

pub open spec fn spec_mp3party_stream_url(id: Seq<char>) -> Seq<char> {
    "https://dl2.mp3party.net/online/"@ + id + ".mp3"@
}

pub open spec fn spec_mp3party_download_url(id: Seq<char>) -> Seq<char> {
    "https://dl2.mp3party.net/download/"@ + id
}

pub open spec fn spec_mp3party_track_page(id: Seq<char>) -> Seq<char> {
    "https://mp3party.net/music/"@ + id
}

/// Online (streaming) MP3 of an MP3Party track.
pub fn mp3party_stream_url(id: &str) -> (r: String)
    ensures
        r@ == spec_mp3party_stream_url(id@),
{
    cat3("https://dl2.mp3party.net/online/", id, ".mp3")
}

/// Download endpoint of an MP3Party track.
pub fn mp3party_download_url(id: &str) -> (r: String)
    ensures
        r@ == spec_mp3party_download_url(id@),
{
    cat("https://dl2.mp3party.net/download/", id)
}

/// Page of an MP3Party track.
pub fn mp3party_track_page(id: &str) -> (r: String)
    ensures
        r@ == spec_mp3party_track_page(id@),
{
    cat("https://mp3party.net/music/", id)
}

/// MP3Party search page for a query.
pub fn mp3party_search_url(query: &str) -> (r: String)
    ensures
        r@ == "https://mp3party.net/search?q="@ + spec_url_encode(query@),
{
    let e = url_encode(query);
    cat("https://mp3party.net/search?q=", e.as_str())
}

/// DriveMusic search page for a query (trimmed first).
pub fn drivemusic_search_url(query: &str) -> (r: String)
    ensures
        r@ == DRIVEMUSIC_BASE@ + "/?do=search&subaction=search&story="@ + spec_url_encode(
            trim(query@),
        ),
{
    let t = trimmed(query);
    let e = url_encode(t.as_str());
    cat3(DRIVEMUSIC_BASE, "/?do=search&subaction=search&story=", e.as_str())
}

/// Pesni.me search page for a query.
pub fn pesnime_search_url(query: &str) -> (r: String)
    ensures
        r@ == PESNIME_BASE@ + "/search/"@ + spec_url_encode(query@) + "?type=tracks"@,
{
    let e = url_encode(query);
    let mut s = cat3(PESNIME_BASE, "/search/", e.as_str());
    s.append("?type=tracks");
    s
}

/// Second Pesni.me search page, tried when the first one lists nothing.
pub fn pesnime_fallback_search_url(query: &str) -> (r: String)
    ensures
        r@ == "https://pesni.me/search/"@ + spec_url_encode(query@),
{
    let e = url_encode(query);
    cat("https://pesni.me/search/", e.as_str())
}

pub open spec fn spec_pesnime_track_url(id: Seq<char>) -> Seq<char> {
    PESNIME_BASE@ + "/track/"@ + id
}

/// Page of a Pesni.me track.
pub fn pesnime_track_url(id: &str) -> (r: String)
    ensures
        r@ == spec_pesnime_track_url(id@),
{
    cat3(PESNIME_BASE, "/track/", id)
}

/// YouTube page of a video id.
pub fn youtube_watch_url(id: &str) -> (r: String)
    ensures
        r@ == "https://www.youtube.com/watch?v="@ + id@,
{
    cat("https://www.youtube.com/watch?v=", id)
}

/// The DriveMusic page of a track: its URL when that is a DriveMusic `.html` page,
/// the site root joined to it when it is a site path.
pub open spec fn spec_drivemusic_page_url(url: Seq<char>) -> Result<Seq<char>, Seq<char>> {
    let u = trim(url);
    if contains(u, "drivemusic.me"@) && ends_with(u, ".html"@) {
        Ok(u)
    } else if starts_with(u, "/"@) && ends_with(u, ".html"@) {
        Ok(DRIVEMUSIC_BASE@ + u)
    } else {
        Err("DriveMusic: нет ссылки на страницу трека — найдите трек через поиск."@)
    }
}

pub fn drivemusic_page_url(track: &TrackInfo) -> (r: Result<String, String>)
    ensures
        match r {
            Ok(s) => spec_drivemusic_page_url(track.url@) == Ok::<Seq<char>, Seq<char>>(s@),
            Err(e) => spec_drivemusic_page_url(track.url@) == Err::<Seq<char>, Seq<char>>(e@),
        },
{
    let u = trimmed(track.url.as_str());
    if str_contains(u.as_str(), "drivemusic.me") && str_ends_with(u.as_str(), ".html") {
        Ok(u)
    } else if str_starts_with(u.as_str(), "/") && str_ends_with(u.as_str(), ".html") {
        Ok(cat(DRIVEMUSIC_BASE, u.as_str()))
    } else {
        Err(owned("DriveMusic: нет ссылки на страницу трека — найдите трек через поиск."))
    }
}

// ---------------------------------------------------------------- small readers

/// Artist and title of a YouTube result: split at the first `" - "` of the title,
/// else the channel is the artist (when it is not the title itself), else "YouTube".
pub open spec fn spec_split_ytdlp_title(full: Seq<char>, channel: Seq<char>) -> (Seq<char>, Seq<char>) {
    match find(full, " - "@) {
        Some(i) => (trim(full.subrange(0, i)), trim(full.subrange(i + 3, full.len() as int))),
        None => if channel.len() > 0 && channel != full {
            (trim(channel), trim(full))
        } else {
            ("YouTube"@, trim(full))
        },
    }
}

pub fn split_ytdlp_title(full: &str, channel: &str) -> (r: (String, String))
    ensures
        (r.0@, r.1@) == spec_split_ytdlp_title(full@, channel@),
{
    let fc = chars_of(full);
    let sep = chars_of(" - ");
    proof {
        reveal_strlit(" - ");
    }
    assert(sep@.len() == 3);
    match find_in(fc.as_slice(), sep.as_slice()) {
        Some(i) => {
            proof {
                lemma_find_from_bounds(fc@, sep@, 0);
                assert(crate::text::matches_at(fc@, sep@, i as int));
            }
            let n = fc.len();
            assert(i + 3 <= n);
            let a = string_from_chars(slice_subrange(fc.as_slice(), 0, i));
            let t = string_from_chars(slice_subrange(fc.as_slice(), i + 3, n));
            (trimmed(a.as_str()), trimmed(t.as_str()))
        },
        None => {
            if !channel.is_empty() && !crate::types::str_eq(channel, full) {
                (trimmed(channel), trimmed(full))
            } else {
                (owned("YouTube"), trimmed(full))
            }
        },
    }
}

/// `String::from_utf8_lossy`: the bytes decoded as UTF-8, invalid sequences replaced.
pub uninterp spec fn spec_utf8_lossy(bytes: Seq<u8>) -> Seq<char>;

/// `String::from_utf8_lossy(bytes).into_owned()` of std.  The result depends on the
/// bytes alone and is named [`spec_utf8_lossy`]; the decoding itself is not restated.
#[verifier::external_body]
pub fn utf8_lossy(bytes: &[u8]) -> (r: String)
    ensures
        r@ == spec_utf8_lossy(bytes@),
{
    String::from_utf8_lossy(bytes).into_owned()
}

/// A short MP3Party answer that is an error text instead of audio.
pub open spec fn spec_is_mp3party_error_body(bytes: Seq<u8>) -> bool {
    bytes.len() <= 512 && (contains(spec_utf8_lossy(bytes), "failed to get file"@) || contains(
        spec_utf8_lossy(bytes),
        "nil"@,
    ))
}

pub fn is_mp3party_error_body(bytes: &[u8]) -> (b: bool)
    ensures
        b == spec_is_mp3party_error_body(bytes@),
{
    if bytes.len() > 512 {
        return false;
    }
    let preview = utf8_lossy(bytes);
    str_contains(preview.as_str(), "failed to get file") || str_contains(preview.as_str(), "nil")
}

/// Every non-overlapping occurrence of `pat` (non-empty), scanning from the left,
/// replaced by `rep` (`str::replace`).
pub open spec fn replace_all(s: Seq<char>, pat: Seq<char>, rep: Seq<char>) -> Seq<char>
    decreases s.len(),
{
    if s.len() == 0 || pat.len() == 0 {
        s
    } else if starts_with(s, pat) {
        rep + replace_all(s.subrange(pat.len() as int, s.len() as int), pat, rep)
    } else {
        seq![s[0]] + replace_all(s.drop_first(), pat, rep)
    }
}

/// `str::replace` with a non-empty pattern.
pub fn replace_str(s: &str, pat: &str, rep: &str) -> (r: String)
    ensures
        r@ == replace_all(s@, pat@, rep@),
{
    let cs = chars_of(s);
    let pc = chars_of(pat);
    let rc = chars_of(rep);
    let n = cs.len();
    if pc.len() == 0 {
        return owned(s);
    }
    let mut out: Vec<char> = Vec::new();
    let mut i: usize = 0;
    assert(cs@.subrange(0, n as int) =~= cs@);
    while i < n
        invariant
            n == cs@.len(),
            cs@ == s@,
            pc@ == pat@,
            rc@ == rep@,
            pc@.len() > 0,
            i <= n,
            replace_all(cs@, pc@, rc@) == out@ + replace_all(
                cs@.subrange(i as int, n as int),
                pc@,
                rc@,
            ),
        decreases n - i,
    {
        let rest = slice_subrange(cs.as_slice(), i, n);
        if slice_starts_with(rest, pc.as_slice()) {
            let ghost o = out@;
            let mut k: usize = 0;
            while k < rc.len()
                invariant
                    k <= rc@.len(),
                    out@ == o + rc@.subrange(0, k as int),
                decreases rc@.len() - k,
            {
                out.push(rc[k]);
                assert(rc@.subrange(0, k + 1) =~= rc@.subrange(0, k as int).push(rc@[k as int]));
                k = k + 1;
            }
            assert(rc@.subrange(0, rc@.len() as int) =~= rc@);
            assert(rest@.subrange(pc@.len() as int, rest@.len() as int) =~= cs@.subrange(
                i + pc@.len(),
                n as int,
            ));
            assert(out@ + replace_all(cs@.subrange(i + pc@.len(), n as int), pc@, rc@) =~= o + (
            rc@ + replace_all(cs@.subrange(i + pc@.len(), n as int), pc@, rc@)));
            i = i + pc.len();
        } else {
            let ghost o = out@;
            out.push(cs[i]);
            assert(rest@.drop_first() =~= cs@.subrange(i + 1, n as int));
            assert(out@ + replace_all(cs@.subrange(i + 1, n as int), pc@, rc@) =~= o + (seq![
                cs@[i as int],
            ] + replace_all(cs@.subrange(i + 1, n as int), pc@, rc@)));
            i = i + 1;
        }
    }
    assert(out@ + replace_all(cs@.subrange(n as int, n as int), pc@, rc@) =~= out@);
    string_from_chars(out.as_slice())
}

/// JSON string escapes `\"`, `\n`, `\t` undone, in that order.
pub open spec fn spec_unescape_json(s: Seq<char>) -> Seq<char> {
    replace_all(
        replace_all(replace_all(s, "\\\""@, "\""@), "\\n"@, "\n"@),
        "\\t"@,
        "\t"@,
    )
}

pub fn unescape_json(s: &str) -> (r: String)
    ensures
        r@ == spec_unescape_json(s@),
{
    let a = replace_str(s, "\\\"", "\"");
    let b = replace_str(a.as_str(), "\\n", "\n");
    replace_str(b.as_str(), "\\t", "\t")
}

// ---------------------------------------------------------------- DriveMusic files

/// An online-player URL (listed after the download URLs).
pub open spec fn is_online_url(u: Seq<char>) -> bool {
    contains(u, "/dl/online/"@)
}

/// Sort key `(online, byte length)` compared lexicographically, `false < true`:
/// `a` strictly before `b`.
pub open spec fn key_lt(a: Seq<char>, b: Seq<char>) -> bool {
    (!is_online_url(a) && is_online_url(b)) || (is_online_url(a) == is_online_url(b)
        && encode_utf8(a).len() < encode_utf8(b).len())
}

/// `x` placed into `s` after every element whose key is not greater.
pub open spec fn insert_sorted(s: Seq<Seq<char>>, x: Seq<char>) -> Seq<Seq<char>>
    decreases s.len(),
{
    if s.len() == 0 {
        seq![x]
    } else if key_lt(x, s.last()) {
        insert_sorted(s.drop_last(), x).push(s.last())
    } else {
        s.push(x)
    }
}

/// Stable sort by key (`slice::sort_by_key`).
pub open spec fn stable_sort(s: Seq<Seq<char>>) -> Seq<Seq<char>>
    decreases s.len(),
{
    if s.len() == 0 {
        seq![]
    } else {
        insert_sorted(stable_sort(s.drop_last()), s.last())
    }
}

/// Consecutive repeats collapsed to one (`Vec::dedup`).
pub open spec fn dedup(s: Seq<Seq<char>>) -> Seq<Seq<char>>
    decreases s.len(),
{
    if s.len() <= 1 {
        s
    } else if s.last() == s[s.len() - 2] {
        dedup(s.drop_last())
    } else {
        dedup(s.drop_last()).push(s.last())
    }
}

pub open spec fn sorted_by_key(s: Seq<Seq<char>>) -> bool {
    forall|i: int, j: int| 0 <= i < j < s.len() ==> !key_lt(#[trigger] s[j], #[trigger] s[i])
}

/// MP3 links on a DriveMusic track page: download links first, shorter first, in
/// page order among equals; a link repeated right after itself is kept once.
pub open spec fn spec_drivemusic_mp3_urls(html: Seq<char>) -> Seq<Seq<char>> {
    dedup(stable_sort(spec_regex_find_all(RE_DRIVEMUSIC_MP3@, html)))
}

pub proof fn lemma_insert_sorted(s: Seq<Seq<char>>, x: Seq<char>)
    requires
        sorted_by_key(s),
    ensures
        sorted_by_key(insert_sorted(s, x)),
        insert_sorted(s, x).len() == s.len() + 1,
        forall|k: int|
            0 <= k < insert_sorted(s, x).len() ==> #[trigger] insert_sorted(s, x)[k] == x
                || s.contains(insert_sorted(s, x)[k]),
    decreases s.len(),
{
    if s.len() == 0 {
    } else if key_lt(x, s.last()) {
        let t = s.drop_last();
        assert(sorted_by_key(t));
        lemma_insert_sorted(t, x);
        let r = insert_sorted(t, x);
        assert forall|k: int| 0 <= k < r.len() implies !key_lt(s.last(), #[trigger] r[k]) by {
            if r[k] != x {
                let m = choose|m: int| 0 <= m < t.len() && t[m] == r[k];
                assert(s[m] == t[m]);
            }
        }
        assert forall|k: int| 0 <= k < r.push(s.last()).len() implies #[trigger] r.push(
            s.last(),
        )[k] == x || s.contains(r.push(s.last())[k]) by {
            if k < r.len() && r[k] != x {
                let m = choose|m: int| 0 <= m < t.len() && t[m] == r[k];
                assert(s[m] == t[m]);
            } else if k == r.len() {
                assert(s[s.len() - 1] == s.last());
            }
        }
    } else {
        let r = s.push(x);
        assert forall|k: int| 0 <= k < r.len() implies #[trigger] r[k] == x || s.contains(r[k]) by {
            if k < s.len() {
                assert(r[k] == s[k]);
            }
        }
    }
}

/// The sort orders by key and keeps every element.
pub proof fn lemma_stable_sort_sorted(s: Seq<Seq<char>>)
    ensures
        sorted_by_key(stable_sort(s)),
        stable_sort(s).len() == s.len(),
    decreases s.len(),
{
    if s.len() > 0 {
        lemma_stable_sort_sorted(s.drop_last());
        lemma_insert_sorted(stable_sort(s.drop_last()), s.last());
    }
}

pub proof fn lemma_dedup_last(s: Seq<Seq<char>>)
    requires
        s.len() > 0,
    ensures
        dedup(s).len() > 0,
        dedup(s).last() == s.last(),
    decreases s.len(),
{
    if s.len() > 1 {
        lemma_dedup_last(s.drop_last());
    }
}

/// After `dedup` no element equals the one before it.
pub proof fn lemma_dedup_no_adjacent_repeats(s: Seq<Seq<char>>)
    ensures
        forall|k: int| 0 < k < dedup(s).len() ==> #[trigger] dedup(s)[k] != dedup(s)[k - 1],
    decreases s.len(),
{
    if s.len() > 1 {
        lemma_dedup_no_adjacent_repeats(s.drop_last());
        lemma_dedup_last(s.drop_last());
    }
}

fn online_of(u: &String) -> (b: bool)
    ensures
        b == is_online_url(u@),
{
    str_contains(u.as_str(), "/dl/online/")
}

fn key_less(a: &String, b: &String) -> (r: bool)
    ensures
        r == key_lt(a@, b@),
{
    let oa = online_of(a);
    let ob = online_of(b);
    (!oa && ob) || (oa == ob && a.as_str().as_bytes().len() < b.as_str().as_bytes().len())
}

pub open spec fn views(v: Seq<String>) -> Seq<Seq<char>> {
    v.map_values(|s: String| s@)
}

fn stable_sort_urls(urls: &Vec<String>) -> (out: Vec<String>)
    ensures
        views(out@) == stable_sort(views(urls@)),
{
    let mut out: Vec<String> = Vec::new();
    let n = urls.len();
    let mut i: usize = 0;
    while i < n
        invariant
            n == urls@.len(),
            i <= n,
            views(out@) == stable_sort(views(urls@).take(i as int)),
        decreases n - i,
    {
        let x = urls[i].clone();
        let ghost o = views(out@);
        let mut j = out.len();
        assert(o.take(j as int) =~= o);
        assert(o.skip(j as int) =~= Seq::<Seq<char>>::empty());
        while j > 0 && key_less(&x, &out[j - 1])
            invariant
                j <= out@.len(),
                views(out@) == o,
                insert_sorted(o, x@) == insert_sorted(o.take(j as int), x@) + o.skip(j as int),
            decreases j,
        {
            let ghost t = o.take(j as int);
            assert(t.drop_last() =~= o.take(j - 1));
            assert(t.last() == o[j - 1]);
            assert(o.skip(j - 1) =~= seq![o[j - 1]] + o.skip(j as int));
            assert(insert_sorted(o.take(j - 1), x@).push(o[j - 1]) + o.skip(j as int)
                =~= insert_sorted(o.take(j - 1), x@) + o.skip(j - 1));
            j = j - 1;
        }
        proof {
            if j > 0 {
                assert(o.take(j as int).last() == o[j - 1]);
            }
            assert(insert_sorted(o, x@) =~= o.insert(j as int, x@));
        }
        out.insert(j, x);
        assert(views(out@) =~= o.insert(j as int, x@));
        assert(views(urls@).take(i + 1).drop_last() =~= views(urls@).take(i as int));
        i = i + 1;
    }
    assert(views(urls@).take(n as int) =~= views(urls@));
    out
}

fn dedup_urls(v: Vec<String>) -> (out: Vec<String>)
    ensures
        views(out@) == dedup(views(v@)),
{
    let mut out: Vec<String> = Vec::new();
    let n = v.len();
    let mut i: usize = 0;
    while i < n
        invariant
            n == v@.len(),
            i <= n,
            views(out@) == dedup(views(v@).take(i as int)),
            i > 0 ==> out@.len() > 0 && out@.last()@ == views(v@)[i - 1],
        decreases n - i,
    {
        let ghost t = views(v@).take(i + 1);
        assert(t.drop_last() =~= views(v@).take(i as int));
        let ghost o = views(out@);
        let keep = if out.len() == 0 {
            true
        } else {
            let last = &out[out.len() - 1];
            !(*last == v[i])
        };
        if keep {
            out.push(v[i].clone());
            assert(views(out@) =~= o.push(v@[i as int]@));
        }
        proof {
            if i > 0 {
                assert(t[t.len() - 2] == views(v@)[i - 1]);
            }
        }
        i = i + 1;
    }
    assert(views(v@).take(n as int) =~= views(v@));
    out
}

/// MP3 links of a DriveMusic track page.
pub fn drivemusic_extract_mp3_urls(html: &str) -> (r: Vec<String>)
    ensures
        views(r@) == spec_drivemusic_mp3_urls(html@),
{
    let found = regex_find_all(RE_DRIVEMUSIC_MP3, html);
    assert(views(found@) =~= spec_regex_find_all(RE_DRIVEMUSIC_MP3@, html@));
    let sorted = stable_sort_urls(&found);
    dedup_urls(sorted)
}

/// Download candidates of a DriveMusic track: the MP3 links of its page.
pub fn drivemusic_download_candidates(page_body: &str, _track: &TrackInfo) -> (r: Vec<String>)
    ensures
        views(r@) == spec_drivemusic_mp3_urls(page_body@),
{
    drivemusic_extract_mp3_urls(page_body)
}

/// The link a DriveMusic stream plays: the first online-player link, else the first
/// link.
pub open spec fn spec_pick_stream_url(urls: Seq<Seq<char>>) -> Result<Seq<char>, Seq<char>> {
    if exists|k: int| 0 <= k < urls.len() && is_online_url(#[trigger] urls[k]) {
        let k = choose|k: int|
            0 <= k < urls.len() && is_online_url(#[trigger] urls[k]) && forall|m: int|
                0 <= m < k ==> !is_online_url(#[trigger] urls[m]);
        Ok(urls[k])
    } else if urls.len() > 0 {
        Ok(urls[0])
    } else {
        Err("На странице нет MP3 URL"@)
    }
}

pub fn pick_stream_url(urls: &Vec<String>) -> (r: Result<String, String>)
    ensures
        match r {
            Ok(u) => spec_pick_stream_url(views(urls@)) == Ok::<Seq<char>, Seq<char>>(u@),
            Err(e) => spec_pick_stream_url(views(urls@)) == Err::<Seq<char>, Seq<char>>(e@),
        },
{
    let ghost vs = views(urls@);
    let mut k: usize = 0;
    while k < urls.len()
        invariant
            vs == views(urls@),
            k <= urls@.len(),
            forall|m: int| 0 <= m < k ==> !is_online_url(#[trigger] vs[m]),
        decreases urls@.len() - k,
    {
        if online_of(&urls[k]) {
            assert(is_online_url(vs[k as int]));
            let ghost c = choose|c: int|
                0 <= c < vs.len() && is_online_url(#[trigger] vs[c]) && forall|m: int|
                    0 <= m < c ==> !is_online_url(#[trigger] vs[m]);
            assert(c == k) by {
                if c < k {
                    assert(!is_online_url(vs[c]));
                }
                if c > k {
                    assert(!is_online_url(vs[k as int]));
                }
            }
            return Ok(urls[k].clone());
        }
        k = k + 1;
    }
    if urls.len() > 0 {
        Ok(urls[0].clone())
    } else {
        Err(owned("На странице нет MP3 URL"))
    }
}

// ---------------------------------------------------------------- capture helpers

/// Group `k` of a match, or the empty text.
pub open spec fn cap_or_empty(g: Seq<Option<Seq<char>>>, k: int) -> Seq<char> {
    match group(g, k) {
        Some(x) => x,
        None => seq![],
    }
}

pub(crate) fn cap_at(g: &Vec<Option<String>>, k: usize) -> (r: String)
    ensures
        r@ == cap_or_empty(groups_view(g@), k as int),
{
    if k < g.len() {
        match &g[k] {
            Some(s) => s.clone(),
            None => String::new(),
        }
    } else {
        String::new()
    }
}

/// Some track of `ts` has the id `id`.
pub open spec fn has_id(ts: Seq<TrackModel>, id: Seq<char>) -> bool {
    exists|k: int| 0 <= k < ts.len() && (#[trigger] ts[k]).id == id
}

pub open spec fn tviews(v: Seq<TrackInfo>) -> Seq<TrackModel> {
    v.map_values(|t: TrackInfo| t@)
}

pub(crate) fn contains_id(ts: &Vec<TrackInfo>, id: &String) -> (b: bool)
    ensures
        b == has_id(tviews(ts@), id@),
{
    let mut k: usize = 0;
    while k < ts.len()
        invariant
            k <= ts@.len(),
            forall|m: int| 0 <= m < k ==> (#[trigger] tviews(ts@)[m]).id != id@,
        decreases ts@.len() - k,
    {
        if ts[k].id == *id {
            assert(tviews(ts@)[k as int].id == id@);
            return true;
        }
        k = k + 1;
    }
    false
}

/// The first `n` elements (all of them when there are fewer): `into_iter().take(n)`.
pub open spec fn take_at_most<T>(s: Seq<T>, n: int) -> Seq<T> {
    if s.len() <= n {
        s
    } else {
        s.take(n)
    }
}

fn take_tracks(v: Vec<TrackInfo>, n: usize) -> (r: Vec<TrackInfo>)
    ensures
        tviews(r@) == take_at_most(tviews(v@), n as int),
{
    let mut v = v;
    let ghost before = v@;
    if v.len() > n {
        v.truncate(n);
        assert(tviews(v@) =~= tviews(before).take(n as int));
    }
    v
}

// ---------------------------------------------------------------- Pesni.me

/// URL a Pesni.me track is fetched from: its download link, else its play link, else
/// its page.
pub open spec fn spec_pesnime_url(id: Seq<char>, play: Seq<char>, download: Seq<char>) -> Seq<char> {
    if download.len() > 0 {
        download
    } else if play.len() > 0 {
        play
    } else {
        spec_pesnime_track_url(id)
    }
}

/// Tracks from the first `n` matches of [`RE_PESNIME_TRACK`]: entries without an id or
/// a title, and repeated ids, are skipped.
pub open spec fn pesnime_tracks_upto(caps: Seq<Seq<Option<Seq<char>>>>, n: int) -> Seq<TrackModel>
    decreases n,
{
    if n <= 0 {
        seq![]
    } else {
        let r = pesnime_tracks_upto(caps, n - 1);
        let g = caps[n - 1];
        let id = cap_or_empty(g, 1);
        let title = match group(g, 3) {
            Some(x) => spec_unescape_json(x),
            None => seq![],
        };
        let artist = match group(g, 2) {
            Some(x) => spec_unescape_json(x),
            None => seq![],
        };
        if id.len() == 0 || title.len() == 0 || has_id(r, id) {
            r
        } else {
            r.push(
                TrackModel {
                    id,
                    artist,
                    title,
                    url: spec_pesnime_url(id, cap_or_empty(g, 7), cap_or_empty(g, 8)),
                },
            )
        }
    }
}

/// The tracks listed in a Pesni.me page.
pub open spec fn spec_pesnime_extract_tracks(body: Seq<char>) -> Seq<TrackModel> {
    let caps = spec_regex_captures_all(RE_PESNIME_TRACK@, body);
    pesnime_tracks_upto(caps, caps.len() as int)
}

fn unescaped_group(g: &Vec<Option<String>>, k: usize) -> (r: String)
    ensures
        r@ == match group(groups_view(g@), k as int) {
            Some(x) => spec_unescape_json(x),
            None => seq![],
        },
{
    if k < g.len() {
        match &g[k] {
            Some(s) => unescape_json(s.as_str()),
            None => String::new(),
        }
    } else {
        String::new()
    }
}

pub fn pesnime_extract_tracks(body: &str) -> (r: Vec<TrackInfo>)
    ensures
        tviews(r@) == spec_pesnime_extract_tracks(body@),
{
    let caps = regex_captures_all(RE_PESNIME_TRACK, body);
    let ghost cv = spec_regex_captures_all(RE_PESNIME_TRACK@, body@);
    let mut out: Vec<TrackInfo> = Vec::new();
    let mut i: usize = 0;
    while i < caps.len()
        invariant
            cv == spec_regex_captures_all(RE_PESNIME_TRACK@, body@),
            caps@.len() == cv.len(),
            forall|k: int| 0 <= k < caps@.len() ==> groups_view(#[trigger] caps@[k]@) == cv[k],
            i <= caps@.len(),
            tviews(out@) == pesnime_tracks_upto(cv, i as int),
        decreases caps@.len() - i,
    {
        let g = &caps[i];
        assert(groups_view(g@) == cv[i as int]);
        let id = cap_at(g, 1);
        let artist = unescaped_group(g, 2);
        let title = unescaped_group(g, 3);
        let play = cap_at(g, 7);
        let download = cap_at(g, 8);
        if !(id.as_str().is_empty() || title.as_str().is_empty() || contains_id(&out, &id)) {
            let url = if !download.as_str().is_empty() {
                download
            } else if !play.as_str().is_empty() {
                play
            } else {
                pesnime_track_url(id.as_str())
            };
            let ghost before = tviews(out@);
            out.push(TrackInfo { id, artist, title, url });
            assert(tviews(out@) =~= before.push(out@.last()@));
        }
        i = i + 1;
    }
    out
}

/// A Pesni.me track page: its first listed track.
pub open spec fn spec_pesnime_track_from_page(body: Seq<char>, id: Seq<char>) -> Result<TrackModel, Seq<char>> {
    let ts = spec_pesnime_extract_tracks(body);
    if ts.len() > 0 {
        Ok(ts[0])
    } else {
        Err("Не удалось распознать трек Pesni.me ID "@ + id)
    }
}

pub fn pesnime_track_from_page(body: &str, id: &str) -> (r: Result<TrackInfo, String>)
    ensures
        match r {
            Ok(t) => spec_pesnime_track_from_page(body@, id@) == Ok::<TrackModel, Seq<char>>(t@),
            Err(e) => spec_pesnime_track_from_page(body@, id@) == Err::<TrackModel, Seq<char>>(e@),
        },
{
    let mut ts = pesnime_extract_tracks(body);
    if ts.len() > 0 {
        let ghost t0 = tviews(ts@)[0];
        let t = ts.swap_remove(0);
        assert(t@ == t0);
        Ok(t)
    } else {
        Err(cat("Не удалось распознать трек Pesni.me ID ", id))
    }
}

/// The word at the start of `s` (up to the first whitespace).
pub open spec fn leading_word(s: Seq<char>) -> Seq<char>
    decreases s.len(),
{
    if s.len() == 0 || is_whitespace(s[0]) {
        seq![]
    } else {
        seq![s[0]] + leading_word(s.drop_first())
    }
}

pub proof fn lemma_leading_word_len(s: Seq<char>)
    ensures
        leading_word(s).len() <= s.len(),
        leading_word(s) == s.subrange(0, leading_word(s).len() as int),
    decreases s.len(),
{
    if s.len() > 0 && !is_whitespace(s[0]) {
        lemma_leading_word_len(s.drop_first());
        assert(leading_word(s) =~= s.subrange(0, leading_word(s).len() as int));
    }
}

/// `str::split_whitespace`: the maximal runs of non-whitespace characters.
pub open spec fn split_whitespace(s: Seq<char>) -> Seq<Seq<char>>
    decreases s.len(),
{
    let t = crate::text::trim_start(s);
    if t.len() == 0 {
        seq![]
    } else {
        let w = leading_word(t);
        proof {
            crate::text::lemma_trim_start_len(s);
            lemma_leading_word_len(t);
        }
        seq![w] + split_whitespace(t.subrange(w.len() as int, t.len() as int))
    }
}

/// The words of `s` (`split_whitespace`).
pub fn split_whitespace_of(s: &str) -> (r: Vec<String>)
    ensures
        views(r@) == split_whitespace(s@),
{
    let cs = chars_of(s);
    let n = cs.len();
    let mut out: Vec<String> = Vec::new();
    let mut pos: usize = 0;
    assert(cs@.subrange(0, n as int) =~= cs@);
    while pos < n
        invariant
            cs@ == s@,
            n == cs@.len(),
            pos <= n,
            split_whitespace(s@) == views(out@) + split_whitespace(cs@.subrange(pos as int, n as int)),
        decreases n - pos,
    {
        let ghost rest = cs@.subrange(pos as int, n as int);
        let mut a = pos;
        while a < n && is_whitespace_char(cs[a])
            invariant
                pos <= a <= n == cs@.len(),
                crate::text::trim_start(rest) == crate::text::trim_start(cs@.subrange(a as int, n as int)),
            decreases n - a,
        {
            assert(cs@.subrange(a as int, n as int).drop_first() =~= cs@.subrange(a + 1, n as int));
            a = a + 1;
        }
        let ghost t = cs@.subrange(a as int, n as int);
        assert(crate::text::trim_start(t) == t);
        if a == n {
            assert(split_whitespace(rest) =~= Seq::<Seq<char>>::empty());
            assert(views(out@) + Seq::<Seq<char>>::empty() =~= views(out@));
            assert(cs@.subrange(n as int, n as int) =~= Seq::<char>::empty());
            pos = n;
        } else {
            let mut b = a;
            while b < n && !is_whitespace_char(cs[b])
                invariant
                    a <= b <= n == cs@.len(),
                    leading_word(t) == cs@.subrange(a as int, b as int) + leading_word(
                        cs@.subrange(b as int, n as int),
                    ),
                decreases n - b,
            {
                let ghost u = cs@.subrange(b as int, n as int);
                assert(u.drop_first() =~= cs@.subrange(b + 1, n as int));
                assert(cs@.subrange(a as int, b + 1) =~= cs@.subrange(a as int, b as int) + seq![
                    u[0],
                ]);
                b = b + 1;
            }
            let w = string_from_chars(slice_subrange(cs.as_slice(), a, b));
            proof {
                assert(leading_word(cs@.subrange(b as int, n as int)) =~= Seq::<char>::empty());
                assert(leading_word(t) =~= w@);
                assert(t.subrange(w@.len() as int, t.len() as int) =~= cs@.subrange(
                    b as int,
                    n as int,
                ));
            }
            let ghost before = views(out@);
            out.push(w);
            assert(views(out@) =~= before.push(w@));
            assert(before + split_whitespace(rest) =~= views(out@) + split_whitespace(
                cs@.subrange(b as int, n as int),
            ));
            pos = b;
        }
    }
    out
}

/// Lower-cased words of a search query.
pub open spec fn query_words(q: Seq<char>) -> Seq<Seq<char>> {
    split_whitespace(q).map_values(|w: Seq<char>| spec_to_lowercase(w))
}

/// A Pesni.me result whose lower-cased artist or title starts with one of the words.
pub open spec fn word_hit(t: TrackModel, words: Seq<Seq<char>>) -> bool {
    exists|k: int|
        0 <= k < words.len() && (starts_with(spec_to_lowercase(t.artist), #[trigger] words[k])
            || starts_with(spec_to_lowercase(t.title), words[k]))
}

/// The results among the first `n` that match the words, in order.
pub open spec fn hits_upto(ts: Seq<TrackModel>, words: Seq<Seq<char>>, n: int) -> Seq<TrackModel>
    decreases n,
{
    if n <= 0 {
        seq![]
    } else {
        let r = hits_upto(ts, words, n - 1);
        if word_hit(ts[n - 1], words) {
            r.push(ts[n - 1])
        } else {
            r
        }
    }
}

pub open spec fn hits(ts: Seq<TrackModel>, words: Seq<Seq<char>>) -> Seq<TrackModel> {
    hits_upto(ts, words, ts.len() as int)
}

/// Answer to a Pesni.me search from the first results page: up to 30 results that
/// match the query's words, else (when some results came) the first 30 results;
/// `None` when the page listed nothing and the fallback page has to be tried.
pub open spec fn spec_pesnime_first_pass(ts: Seq<TrackModel>, query: Seq<char>) -> Option<Seq<TrackModel>> {
    let m = take_at_most(hits(ts, query_words(query)), 30);
    if m.len() > 0 {
        Some(m)
    } else if ts.len() == 0 {
        None
    } else {
        Some(take_at_most(ts, 30))
    }
}

/// Answer from the fallback page (when it could be read): up to 30 matching results,
/// else "nothing found".
pub open spec fn spec_pesnime_fallback(ts: Option<Seq<TrackModel>>, query: Seq<char>) -> Result<Seq<TrackModel>, Seq<char>> {
    let none = Err("Ничего не найдено на Pesni.me по запросу «"@ + query + "».".view());
    match ts {
        Some(t) => {
            let m = take_at_most(hits(t, query_words(query)), 30);
            if m.len() > 0 {
                Ok(m)
            } else {
                none
            }
        },
        None => none,
    }
}

fn lowered_words(query: &str) -> (r: Vec<String>)
    ensures
        views(r@) == query_words(query@),
{
    let ws = split_whitespace_of(query);
    let mut out: Vec<String> = Vec::new();
    let mut i: usize = 0;
    while i < ws.len()
        invariant
            views(ws@) == split_whitespace(query@),
            i <= ws@.len(),
            views(out@) == views(ws@).take(i as int).map_values(|w: Seq<char>| spec_to_lowercase(w)),
        decreases ws@.len() - i,
    {
        let l = to_lowercase(ws[i].as_str());
        let ghost before = views(out@);
        out.push(l);
        assert(views(out@) =~= before.push(l@));
        assert(views(ws@).take(i + 1).map_values(|w: Seq<char>| spec_to_lowercase(w))
            =~= views(ws@).take(i as int).map_values(|w: Seq<char>| spec_to_lowercase(w)).push(
            spec_to_lowercase(views(ws@)[i as int]),
        ));
        i = i + 1;
    }
    assert(views(ws@).take(ws@.len() as int) =~= views(ws@));
    out
}

fn is_word_hit(t: &TrackInfo, words: &Vec<String>) -> (b: bool)
    ensures
        b == word_hit(t@, views(words@)),
{
    let al = to_lowercase(t.artist.as_str());
    let tl = to_lowercase(t.title.as_str());
    let mut k: usize = 0;
    while k < words.len()
        invariant
            k <= words@.len(),
            al@ == spec_to_lowercase(t.artist@),
            tl@ == spec_to_lowercase(t.title@),
            forall|m: int|
                0 <= m < k ==> !(starts_with(al@, #[trigger] views(words@)[m]) || starts_with(
                    tl@,
                    views(words@)[m],
                )),
        decreases words@.len() - k,
    {
        if str_starts_with(al.as_str(), words[k].as_str()) || str_starts_with(
            tl.as_str(),
            words[k].as_str(),
        ) {
            assert(views(words@)[k as int] == words@[k as int]@);
            return true;
        }
        k = k + 1;
    }
    false
}

fn matching_tracks(ts: &Vec<TrackInfo>, words: &Vec<String>) -> (r: Vec<TrackInfo>)
    ensures
        tviews(r@) == hits(tviews(ts@), views(words@)),
{
    let mut out: Vec<TrackInfo> = Vec::new();
    let mut i: usize = 0;
    while i < ts.len()
        invariant
            i <= ts@.len(),
            tviews(out@) == hits_upto(tviews(ts@), views(words@), i as int),
        decreases ts@.len() - i,
    {
        assert(tviews(ts@)[i as int] == ts@[i as int]@);
        if is_word_hit(&ts[i], words) {
            let ghost before = tviews(out@);
            out.push(ts[i].clone());
            assert(tviews(out@) =~= before.push(ts@[i as int]@));
        }
        i = i + 1;
    }
    out
}

/// First-page decision of a Pesni.me search.
pub fn pesnime_first_pass(results: Vec<TrackInfo>, query: &str) -> (r: Option<Vec<TrackInfo>>)
    ensures
        match r {
            Some(v) => spec_pesnime_first_pass(tviews(results@), query@) == Some(tviews(v@)),
            None => spec_pesnime_first_pass(tviews(results@), query@) is None,
        },
{
    let words = lowered_words(query);
    let m = take_tracks(matching_tracks(&results, &words), 30);
    if m.len() > 0 {
        Some(m)
    } else if results.len() == 0 {
        None
    } else {
        Some(take_tracks(results, 30))
    }
}

/// Fallback-page decision of a Pesni.me search (`None`: the page could not be read).
pub fn pesnime_fallback(results: Option<Vec<TrackInfo>>, query: &str) -> (r: Result<Vec<TrackInfo>, String>)
    ensures
        match r {
            Ok(v) => spec_pesnime_fallback(
                match results {
                    Some(t) => Some(tviews(t@)),
                    None => None,
                },
                query@,
            ) == Ok::<Seq<TrackModel>, Seq<char>>(tviews(v@)),
            Err(e) => spec_pesnime_fallback(
                match results {
                    Some(t) => Some(tviews(t@)),
                    None => None,
                },
                query@,
            ) == Err::<Seq<TrackModel>, Seq<char>>(e@),
        },
{
    if let Some(t) = results {
        let words = lowered_words(query);
        let m = take_tracks(matching_tracks(&t, &words), 30);
        if m.len() > 0 {
            return Ok(m);
        }
    }
    Err(cat3("Ничего не найдено на Pesni.me по запросу «", query, "»."))
}

// ---------------------------------------------------------------- DriveMusic search

/// Tracks from the first `n` search hits: hits without an id or author, and repeated
/// ids, are skipped; a site path becomes a full page URL.
pub open spec fn drivemusic_hits_upto(caps: Seq<Seq<Option<Seq<char>>>>, n: int) -> Seq<TrackModel>
    decreases n,
{
    if n <= 0 {
        seq![]
    } else {
        let r = drivemusic_hits_upto(caps, n - 1);
        let g = caps[n - 1];
        let path = cap_or_empty(g, 1);
        let id = cap_or_empty(g, 2);
        let title = trim(cap_or_empty(g, 3));
        let artist = trim(cap_or_empty(g, 4));
        if id.len() == 0 || title.len() == 0 || has_id(r, id) {
            r
        } else {
            let page = if starts_with(path, "http"@) {
                path
            } else {
                DRIVEMUSIC_BASE@ + path
            };
            r.push(TrackModel { id, artist, title, url: page })
        }
    }
}

/// A DriveMusic search page read into at most 30 tracks, or "nothing found".
pub open spec fn spec_drivemusic_search_results(body: Seq<char>, query: Seq<char>) -> Result<Seq<TrackModel>, Seq<char>> {
    let caps = spec_regex_captures_all(RE_DRIVEMUSIC_SEARCH@, body);
    let r = drivemusic_hits_upto(caps, caps.len() as int);
    if r.len() == 0 {
        Err("Ничего не найдено на DriveMusic по запросу «"@ + query + "».".view())
    } else {
        Ok(take_at_most(r, 30))
    }
}

/// A track page address read from search hits `caps`: the site address followed by a
/// site path, or a captured path that already is an absolute `http` address.
pub open spec fn is_drivemusic_page(caps: Seq<Seq<Option<Seq<char>>>>, url: Seq<char>) -> bool {
    ||| starts_with(url, DRIVEMUSIC_BASE@)
    ||| starts_with(url, "http"@) && exists|k: int|
        0 <= k < caps.len() && cap_or_empty(#[trigger] caps[k], 1) == url
}

/// The tracks read from the first `n` hits have non-empty ids and titles, no id twice,
/// and page addresses on the site.
proof fn lemma_drivemusic_hits_shape(caps: Seq<Seq<Option<Seq<char>>>>, n: int)
    requires
        n <= caps.len(),
    ensures
        forall|i: int| 0 <= i < drivemusic_hits_upto(caps, n).len() ==> is_drivemusic_page(
            caps,
            (#[trigger] drivemusic_hits_upto(caps, n)[i]).url,
        ),
        forall|i: int| 0 <= i < drivemusic_hits_upto(caps, n).len() ==> {
            &&& (#[trigger] drivemusic_hits_upto(caps, n)[i]).id.len() > 0
            &&& drivemusic_hits_upto(caps, n)[i].title.len() > 0
        },
        forall|i: int, j: int|
            0 <= i < j < drivemusic_hits_upto(caps, n).len() ==> (#[trigger] drivemusic_hits_upto(caps, n)[i]).id
                != (#[trigger] drivemusic_hits_upto(caps, n)[j]).id,
    decreases n,
{
    if n > 0 {
        lemma_drivemusic_hits_shape(caps, n - 1);
        let r = drivemusic_hits_upto(caps, n - 1);
        let s = drivemusic_hits_upto(caps, n);
        if s.len() > r.len() {
            assert forall|i: int, j: int| 0 <= i < j < s.len() implies #[trigger] s[i].id != #[trigger] s[j].id by {
                if j == r.len() {
                    assert(s[i] == r[i]);
                    if s[i].id == s[j].id {
                        assert(has_id(r, s[j].id));
                    }
                } else {
                    assert(s[i] == r[i] && s[j] == r[j]);
                }
            }
            assert forall|i: int| 0 <= i < s.len() implies (#[trigger] s[i]).id.len() > 0 && s[i].title.len() > 0 by {
                if i < r.len() {
                    assert(s[i] == r[i]);
                }
            }
            let path = cap_or_empty(caps[n - 1], 1);
            if !starts_with(path, "http"@) {
                assert((DRIVEMUSIC_BASE@ + path).subrange(0, DRIVEMUSIC_BASE@.len() as int) =~= DRIVEMUSIC_BASE@);
            }
            assert forall|i: int| 0 <= i < s.len() implies is_drivemusic_page(caps, (#[trigger] s[i]).url) by {
                if i < r.len() {
                    assert(s[i] == r[i]);
                }
            }
        }
    }
}

/// A DriveMusic search that succeeds gives between 1 and 30 tracks; every track has a
/// non-empty id and a non-empty title, no id occurs twice, and every page address is
/// the site address followed by a site path, or a captured absolute `http` address.
pub proof fn lemma_drivemusic_results_shape(body: Seq<char>, query: Seq<char>)
    ensures
        spec_drivemusic_search_results(body, query) matches Ok(v) ==> {
            &&& 1 <= v.len() <= 30
            &&& forall|i: int| 0 <= i < v.len() ==> is_drivemusic_page(
                spec_regex_captures_all(RE_DRIVEMUSIC_SEARCH@, body),
                (#[trigger] v[i]).url,
            )
            &&& forall|i: int| 0 <= i < v.len() ==> (#[trigger] v[i]).id.len() > 0 && v[i].title.len() > 0
            &&& forall|i: int, j: int| 0 <= i < j < v.len() ==> (#[trigger] v[i]).id != (#[trigger] v[j]).id
        },
{
    let caps = spec_regex_captures_all(RE_DRIVEMUSIC_SEARCH@, body);
    let r = drivemusic_hits_upto(caps, caps.len() as int);
    lemma_drivemusic_hits_shape(caps, caps.len() as int);
    if r.len() > 0 {
        let v = take_at_most(r, 30);
        assert forall|i: int| 0 <= i < v.len() implies (#[trigger] v[i]).id.len() > 0 && v[i].title.len() > 0 by {
            assert(v[i] == r[i]);
        }
        assert forall|i: int, j: int| 0 <= i < j < v.len() implies (#[trigger] v[i]).id != (#[trigger] v[j]).id by {
            assert(v[i] == r[i] && v[j] == r[j]);
        }
        assert forall|i: int| 0 <= i < v.len() implies is_drivemusic_page(caps, (#[trigger] v[i]).url) by {
            assert(v[i] == r[i]);
        }
    }
}

pub fn drivemusic_search_results(body: &str, query: &str) -> (r: Result<Vec<TrackInfo>, String>)
    ensures
        match r {
            Ok(v) => spec_drivemusic_search_results(body@, query@) == Ok::<Seq<TrackModel>, Seq<char>>(tviews(v@)),
            Err(e) => spec_drivemusic_search_results(body@, query@) == Err::<Seq<TrackModel>, Seq<char>>(e@),
        },
{
    let caps = regex_captures_all(RE_DRIVEMUSIC_SEARCH, body);
    let ghost cv = spec_regex_captures_all(RE_DRIVEMUSIC_SEARCH@, body@);
    let mut out: Vec<TrackInfo> = Vec::new();
    let mut i: usize = 0;
    while i < caps.len()
        invariant
            cv == spec_regex_captures_all(RE_DRIVEMUSIC_SEARCH@, body@),
            caps@.len() == cv.len(),
            forall|k: int| 0 <= k < caps@.len() ==> groups_view(#[trigger] caps@[k]@) == cv[k],
            i <= caps@.len(),
            tviews(out@) == drivemusic_hits_upto(cv, i as int),
        decreases caps@.len() - i,
    {
        let g = &caps[i];
        assert(groups_view(g@) == cv[i as int]);
        let path = cap_at(g, 1);
        let id = cap_at(g, 2);
        let title = trimmed(cap_at(g, 3).as_str());
        let artist = trimmed(cap_at(g, 4).as_str());
        if !(id.as_str().is_empty() || title.as_str().is_empty() || contains_id(&out, &id)) {
            let page = if str_starts_with(path.as_str(), "http") {
                path
            } else {
                cat(DRIVEMUSIC_BASE, path.as_str())
            };
            let ghost before = tviews(out@);
            out.push(TrackInfo { id, artist, title, url: page });
            assert(tviews(out@) =~= before.push(out@.last()@));
        }
        i = i + 1;
    }
    if out.len() == 0 {
        Err(cat3("Ничего не найдено на DriveMusic по запросу «", query, "»."))
    } else {
        Ok(take_tracks(out, 30))
    }
}

} // verus!
