//! yt-dlp: the arguments it is run with and how its output is read.
use vstd::prelude::*;
use vstd::slice::slice_subrange;
use crate::sources::{
    cat, cat3, spec_split_ytdlp_title, split_ytdlp_title, spec_utf8_lossy, tviews, utf8_lossy,
    youtube_watch_url, has_id,
};
use crate::text::{
    chars_of, decimal, decimal_string, find, find_in, lemma_find_from_bounds, lines, lines_of,
    owned, slice_starts_with, starts_with, str_starts_with, string_from_chars, trim, trim_bounds,
};
use crate::types::{TrackInfo, TrackModel, YtDlpFormat};
use crate::patterns::{group, regex_captures, spec_regex_captures, RE_YTDLP_PERCENT};

verus! {

broadcast use vstd::string::group_string_axioms;

pub open spec fn strs(v: Seq<&'static str>) -> Seq<Seq<char>> {
    v.map_values(|s: &'static str| s@)
}

/// Arguments that select the output format of a download.
pub open spec fn spec_format_args(f: YtDlpFormat) -> Seq<Seq<char>> {
    match f {
        YtDlpFormat::Mp3 => seq![
            "-x"@,
            "--audio-format"@,
            "mp3"@,
            "--audio-quality"@,
            "0"@,
            "--embed-thumbnail"@,
        ],
        YtDlpFormat::Mp4 => seq!["-f"@, "bv*+ba/b"@, "--merge-output-format"@, "mp4"@],
    }
}

pub fn ytdlp_format_args(f: YtDlpFormat) -> (r: Vec<&'static str>)
    ensures
        strs(r@) == spec_format_args(f),
{
    let r = match f {
        YtDlpFormat::Mp3 => vec!["-x", "--audio-format", "mp3", "--audio-quality", "0", "--embed-thumbnail"],
        YtDlpFormat::Mp4 => vec!["-f", "bv*+ba/b", "--merge-output-format", "mp4"],
    };
    assert(strs(r@) =~= spec_format_args(f));
    r
}

/// Arguments that speed a download up: aria2c with 16 connections when it is
/// installed, else 8 concurrent fragments.
pub open spec fn spec_speed_args(has_aria2c: bool) -> Seq<Seq<char>> {
    if has_aria2c {
        seq!["--downloader"@, "aria2c"@, "--downloader-args"@, "aria2c:-x 16 -s 16 -k 1M"@]
    } else {
        seq!["--concurrent-fragments"@, "8"@]
    }
}

pub fn ytdlp_speed_args(has_aria2c: bool) -> (r: Vec<&'static str>)
    ensures
        strs(r@) == spec_speed_args(has_aria2c),
{
    let r = if has_aria2c {
        vec!["--downloader", "aria2c", "--downloader-args", "aria2c:-x 16 -s 16 -k 1M"]
    } else {
        vec!["--concurrent-fragments", "8"]
    };
    assert(strs(r@) =~= spec_speed_args(has_aria2c));
    r
}

/// Network arguments for quick queries: no warnings, keep going on errors, short
/// timeouts, a single retry.
pub open spec fn spec_network_args() -> Seq<Seq<char>> {
    seq![
        "--no-warnings"@,
        "--ignore-errors"@,
        "--socket-timeout"@,
        "12"@,
        "--retries"@,
        "1"@,
        "--extractor-retries"@,
        "1"@,
    ]
}

pub fn ytdlp_network_args() -> (r: Vec<&'static str>)
    ensures
        strs(r@) == spec_network_args(),
{
    let r = vec![
        "--no-warnings",
        "--ignore-errors",
        "--socket-timeout",
        "12",
        "--retries",
        "1",
        "--extractor-retries",
        "1",
    ];
    assert(strs(r@) =~= spec_network_args());
    r
}

/// Proxy variables removed from yt-dlp's environment.
pub open spec fn spec_proxy_env_keys() -> Seq<Seq<char>> {
    seq![
        "http_proxy"@,
        "https_proxy"@,
        "ftp_proxy"@,
        "all_proxy"@,
        "HTTP_PROXY"@,
        "HTTPS_PROXY"@,
        "FTP_PROXY"@,
        "ALL_PROXY"@,
    ]
}

pub fn proxy_env_keys() -> (r: Vec<&'static str>)
    ensures
        strs(r@) == spec_proxy_env_keys(),
{
    let r = vec![
        "http_proxy",
        "https_proxy",
        "ftp_proxy",
        "all_proxy",
        "HTTP_PROXY",
        "HTTPS_PROXY",
        "FTP_PROXY",
        "ALL_PROXY",
    ];
    assert(strs(r@) =~= spec_proxy_env_keys());
    r
}

/// Arguments of a search for up to 20 videos, printing id, title and channel.
pub open spec fn spec_search_args(query: Seq<char>) -> Seq<Seq<char>> {
    seq![
        "--flat-playlist"@,
        "--playlist-end"@,
        "20"@,
        "--print"@,
        "%(id)s|||%(title)s|||%(channel)s"@,
        "ytsearch20:"@ + query,
    ]
}

pub fn ytdlp_search_args(query: &str) -> (r: Vec<String>)
    ensures
        crate::sources::views(r@) == spec_search_args(query@),
{
    let r = vec![
        owned("--flat-playlist"),
        owned("--playlist-end"),
        owned("20"),
        owned("--print"),
        owned("%(id)s|||%(title)s|||%(channel)s"),
        cat("ytsearch20:", query),
    ];
    assert(crate::sources::views(r@) =~= spec_search_args(query@));
    r
}

/// Name of the download archive (the list of videos already fetched) for a format.
pub open spec fn spec_archive_name(f: YtDlpFormat) -> Seq<char> {
    ".yt-dlp-archive-"@ + crate::types::spec_archive_ext(f)
}

pub fn ytdlp_archive_name(f: YtDlpFormat) -> (r: String)
    ensures
        r@ == spec_archive_name(f),
{
    cat(".yt-dlp-archive-", f.archive_ext())
}

/// Arguments of a download of `target` into `folder` in format `f`: IPv4, retries,
/// resuming, the archive file `archive`, no playlists, compilations rejected, the
/// final path printed after `AFTERMOVE:`, one progress line per update, files named
/// after the title; then the format's arguments, the target and the speed arguments.
pub open spec fn spec_download_args(
    archive: Seq<char>,
    folder: Seq<char>,
    f: YtDlpFormat,
    target: Seq<char>,
    has_aria2c: bool,
) -> Seq<Seq<char>> {
    seq![
        "--force-ipv4"@,
        "--socket-timeout"@,
        "20"@,
        "--continue"@,
        "--download-archive"@,
        archive,
        "--no-playlist"@,
        "--reject-title"@,
        "(?i)сборник"@,
        "--print"@,
        "after_move:AFTERMOVE:%(filepath)s"@,
        "--retries"@,
        "10"@,
        "--fragment-retries"@,
        "10"@,
        "--no-mtime"@,
        "--newline"@,
        "-o"@,
        folder + "/%(title)s.%(ext)s"@,
    ] + spec_format_args(f) + seq![target] + spec_speed_args(has_aria2c)
}

fn push_all(out: &mut Vec<String>, v: Vec<&'static str>)
    ensures
        crate::sources::views(final(out)@) == crate::sources::views(old(out)@) + strs(v@),
{
    let ghost start = crate::sources::views(out@);
    let mut i: usize = 0;
    while i < v.len()
        invariant
            i <= v@.len(),
            crate::sources::views(out@) == start + strs(v@).take(i as int),
        decreases v@.len() - i,
    {
        let ghost before = crate::sources::views(out@);
        let x = owned(v[i]);
        out.push(x);
        assert(crate::sources::views(out@) =~= before.push(v@[i as int]@));
        assert(strs(v@).take(i + 1) =~= strs(v@).take(i as int).push(v@[i as int]@));
        assert(crate::sources::views(out@) =~= start + strs(v@).take(i + 1));
        i = i + 1;
    }
    assert(strs(v@).take(v@.len() as int) =~= strs(v@));
}

pub fn ytdlp_download_args(
    archive: &str,
    folder: &str,
    f: YtDlpFormat,
    target: &str,
    has_aria2c: bool,
) -> (r: Vec<String>)
    ensures
        crate::sources::views(r@) == spec_download_args(archive@, folder@, f, target@, has_aria2c),
{
    let mut r = vec![
        owned("--force-ipv4"),
        owned("--socket-timeout"),
        owned("20"),
        owned("--continue"),
        owned("--download-archive"),
        owned(archive),
        owned("--no-playlist"),
        owned("--reject-title"),
        owned("(?i)сборник"),
        owned("--print"),
        owned("after_move:AFTERMOVE:%(filepath)s"),
        owned("--retries"),
        owned("10"),
        owned("--fragment-retries"),
        owned("10"),
        owned("--no-mtime"),
        owned("--newline"),
        owned("-o"),
        cat(folder, "/%(title)s.%(ext)s"),
    ];
    let ghost base = crate::sources::views(r@);
    push_all(&mut r, ytdlp_format_args(f));
    let ghost with_format = crate::sources::views(r@);
    r.push(owned(target));
    assert(crate::sources::views(r@) =~= with_format.push(target@));
    push_all(&mut r, ytdlp_speed_args(has_aria2c));
    assert(crate::sources::views(r@) =~= spec_download_args(archive@, folder@, f, target@, has_aria2c));
    r
}

/// What yt-dlp is pointed at for a track: its URL when it has one, else a search
/// for `artist - title`.
pub open spec fn spec_ytdlp_target(t: TrackModel) -> Seq<char> {
    if starts_with(t.url, "http://"@) || starts_with(t.url, "https://"@) {
        t.url
    } else {
        "ytsearch1:"@ + trim(t.artist) + " - "@ + trim(t.title)
    }
}

fn trimmed(s: &str) -> (r: String)
    ensures
        r@ == trim(s@),
{
    let cs = chars_of(s);
    let (a, b) = trim_bounds(cs.as_slice());
    string_from_chars(slice_subrange(cs.as_slice(), a, b))
}

pub fn ytdlp_target(track: &TrackInfo) -> (r: String)
    ensures
        r@ == spec_ytdlp_target(track@),
{
    if str_starts_with(track.url.as_str(), "http://") || str_starts_with(
        track.url.as_str(),
        "https://",
    ) {
        track.url.clone()
    } else {
        let a = trimmed(track.artist.as_str());
        let t = trimmed(track.title.as_str());
        let mut s = cat3("ytsearch1:", a.as_str(), " - ");
        s.append(t.as_str());
        s
    }
}

/// Format selector of a stream: best audio (m4a first) or a video up to 720p.
pub open spec fn spec_stream_format(f: YtDlpFormat) -> Seq<char> {
    match f {
        YtDlpFormat::Mp3 => "bestaudio[ext=m4a]/bestaudio/best"@,
        YtDlpFormat::Mp4 => "best[height<=720][ext=mp4]/best[ext=mp4]/best"@,
    }
}

pub fn ytdlp_stream_format(f: YtDlpFormat) -> (r: &'static str)
    ensures
        r@ == spec_stream_format(f),
{
    match f {
        YtDlpFormat::Mp3 => "bestaudio[ext=m4a]/bestaudio/best",
        YtDlpFormat::Mp4 => "best[height<=720][ext=mp4]/best[ext=mp4]/best",
    }
}

// ---------------------------------------------------------------- reading output

/// `{}` of a signed integer.
pub open spec fn int_decimal(i: int) -> Seq<char> {
    if i < 0 {
        seq!['-'] + decimal((-i) as nat)
    } else {
        decimal(i as nat)
    }
}

/// `{:?}` of an exit code.
pub open spec fn debug_exit_code(c: Option<i32>) -> Seq<char> {
    match c {
        Some(v) => "Some("@ + int_decimal(v as int) + ")"@,
        None => "None"@,
    }
}

fn debug_code(c: Option<i32>) -> (r: String)
    ensures
        r@ == debug_exit_code(c),
{
    match c {
        Some(v) => {
            let digits = if v < 0 {
                let m: u64 = (-(v as i64)) as u64;
                cat("-", decimal_string(m).as_str())
            } else {
                decimal_string(v as u64)
            };
            proof {
                reveal_strlit("-");
            }
            cat3("Some(", digits.as_str(), ")")
        },
        None => owned("None"),
    }
}

/// Lines joined with `sep` between them (`[T]::join`).
pub open spec fn join(ls: Seq<Seq<char>>, sep: Seq<char>) -> Seq<char>
    decreases ls.len(),
{
    if ls.len() == 0 {
        seq![]
    } else if ls.len() == 1 {
        ls[0]
    } else {
        join(ls.drop_last(), sep) + sep + ls.last()
    }
}

/// The error shown when a yt-dlp search failed without printing anything: the exit
/// code, or the last four lines of its error output.
pub open spec fn spec_ytdlp_failure(code: Option<i32>, stderr: Seq<u8>) -> Seq<char> {
    let tail = trim(spec_utf8_lossy(stderr));
    if tail.len() == 0 {
        "yt-dlp завершился с кодом "@ + debug_exit_code(code)
    } else {
        let ls = lines(tail);
        let snippet = if ls.len() > 4 {
            join(ls.subrange(ls.len() - 4, ls.len() as int), "\n"@)
        } else {
            tail
        };
        "YouTube/yt-dlp: "@ + snippet
    }
}

/// Text between the start and the first `|||` (all of `s` when there is none).
pub open spec fn before_sep(s: Seq<char>) -> Seq<char> {
    match find(s, "|||"@) {
        Some(i) => s.subrange(0, i),
        None => s,
    }
}

/// Text after the first `|||`, when there is one.
pub open spec fn after_sep(s: Seq<char>) -> Option<Seq<char>> {
    match find(s, "|||"@) {
        Some(i) => Some(s.subrange(i + 3, s.len() as int)),
        None => None,
    }
}

/// The track a line of search output describes: `id|||title|||channel` with a real
/// id and title (`NA` is yt-dlp's placeholder).
pub open spec fn spec_ytdlp_line(line: Seq<char>) -> Option<TrackModel> {
    let l = trim(line);
    match after_sep(l) {
        None => None,
        Some(r1) => {
            let id = trim(before_sep(l));
            let full = trim(before_sep(r1));
            let channel = match after_sep(r1) {
                Some(r2) => trim(before_sep(r2)),
                None => seq![],
            };
            if l.len() == 0 || id.len() == 0 || id == "NA"@ || full.len() == 0 || full == "NA"@ {
                None
            } else {
                let (artist, title) = spec_split_ytdlp_title(full, channel);
                Some(
                    TrackModel {
                        id,
                        artist,
                        title,
                        url: "https://www.youtube.com/watch?v="@ + id,
                    },
                )
            }
        },
    }
}

/// Tracks of the first `n` output lines; a repeated id is kept once.
pub open spec fn ytdlp_tracks_upto(ls: Seq<Seq<char>>, n: int) -> Seq<TrackModel>
    decreases n,
{
    if n <= 0 {
        seq![]
    } else {
        let r = ytdlp_tracks_upto(ls, n - 1);
        match spec_ytdlp_line(ls[n - 1]) {
            Some(t) => if has_id(r, t.id) {
                r
            } else {
                r.push(t)
            },
            None => r,
        }
    }
}

/// A yt-dlp search, read from its exit status and output.
pub open spec fn spec_ytdlp_search_results(
    success: bool,
    code: Option<i32>,
    stdout: Seq<u8>,
    stderr: Seq<u8>,
    query: Seq<char>,
) -> Result<Seq<TrackModel>, Seq<char>> {
    if !success && stdout.len() == 0 {
        Err(spec_ytdlp_failure(code, stderr))
    } else {
        let ls = lines(spec_utf8_lossy(stdout));
        let r = ytdlp_tracks_upto(ls, ls.len() as int);
        if r.len() == 0 {
            Err("Ничего не найдено на YouTube по запросу «"@ + query + "».".view())
        } else {
            Ok(r)
        }
    }
}

fn sep_split(s: &[char]) -> (r: Option<usize>)
    ensures
        match r {
            Some(i) => find(s@, "|||"@) == Some(i as int) && i + 3 <= s@.len(),
            None => find(s@, "|||"@) is None,
        },
{
    let sep = chars_of("|||");
    proof {
        reveal_strlit("|||");
    }
    assert(sep@.len() == 3);
    let r = find_in(s, sep.as_slice());
    proof {
        lemma_find_from_bounds(s@, sep@, 0);
    }
    r
}

fn before_sep_of(s: &[char]) -> (r: &[char])
    ensures
        r@ == before_sep(s@),
{
    match sep_split(s) {
        Some(i) => slice_subrange(s, 0, i),
        None => {
            assert(s@.subrange(0, s@.len() as int) =~= s@);
            slice_subrange(s, 0, s.len())
        },
    }
}

fn trim_slice(s: &[char]) -> (r: &[char])
    ensures
        r@ == trim(s@),
{
    let (a, b) = trim_bounds(s);
    slice_subrange(s, a, b)
}

fn is_na(s: &[char]) -> (b: bool)
    ensures
        b == (s@ == "NA"@),
{
    proof {
        reveal_strlit("NA");
    }
    if s.len() == 2 && s[0] == 'N' && s[1] == 'A' {
        assert(s@ =~= "NA"@);
        true
    } else {
        false
    }
}

fn ytdlp_line(line: &[char]) -> (r: Option<TrackInfo>)
    ensures
        match r {
            Some(t) => spec_ytdlp_line(line@) == Some(t@),
            None => spec_ytdlp_line(line@) is None,
        },
{
    let l = trim_slice(line);
    let i = match sep_split(l) {
        Some(i) => i,
        None => return None,
    };
    let ln = l.len();
    assert(i + 3 <= ln);
    let r1 = slice_subrange(l, i + 3, ln);
    let id = trim_slice(before_sep_of(l));
    let full = trim_slice(before_sep_of(r1));
    let channel: &[char] = match sep_split(r1) {
        Some(j) => trim_slice(before_sep_of(slice_subrange(r1, j + 3, r1.len()))),
        None => &[],
    };
    assert(channel@ == match after_sep(r1@) {
        Some(r2) => trim(before_sep(r2)),
        None => Seq::<char>::empty(),
    });
    if l.len() == 0 || id.len() == 0 || is_na(id) || full.len() == 0 || is_na(full) {
        return None;
    }
    let id_s = string_from_chars(id);
    let full_s = string_from_chars(full);
    let ch_s = string_from_chars(channel);
    let (artist, title) = split_ytdlp_title(full_s.as_str(), ch_s.as_str());
    let url = youtube_watch_url(id_s.as_str());
    Some(TrackInfo { id: id_s, artist, title, url })
}

fn contains_id(ts: &Vec<TrackInfo>, id: &String) -> (b: bool)
    ensures
        b == has_id(tviews(ts@), id@),
{
    let mut k: usize = 0;
    while k < ts.len()
        invariant
            k <= ts@.len(),
            forall|m: int| 0 <= m < k ==> (#[trigger] tviews(ts@)[m]).id != id@,
        decreases ts@.len() - k,
    {
        if ts[k].id == *id {
            assert(tviews(ts@)[k as int].id == id@);
            return true;
        }
        k = k + 1;
    }
    false
}

fn join_lines(ls: &Vec<Vec<char>>, from: usize) -> (r: String)
    requires
        from <= ls@.len(),
    ensures
        r@ == join(ls@.subrange(from as int, ls@.len() as int).map_values(|l: Vec<char>| l@), "\n"@),
{
    let ghost all = ls@.map_values(|l: Vec<char>| l@);
    let mut out: Vec<char> = Vec::new();
    let mut k = from;
    proof {
        reveal_strlit("\n");
    }
    assert(all.subrange(from as int, from as int) =~= Seq::<Seq<char>>::empty());
    while k < ls.len()
        invariant
            all == ls@.map_values(|l: Vec<char>| l@),
            from <= k <= ls@.len(),
            out@ == join(all.subrange(from as int, k as int), "\n"@),
            "\n"@ == seq!['\n'],
        decreases ls@.len() - k,
    {
        let ghost o = out@;
        if k > from {
            out.push('\n');
        }
        let line = &ls[k];
        let mut t: usize = 0;
        let ghost mid = out@;
        while t < line.len()
            invariant
                t <= line@.len(),
                out@ == mid + line@.subrange(0, t as int),
            decreases line@.len() - t,
        {
            out.push(line[t]);
            assert(line@.subrange(0, t + 1) =~= line@.subrange(0, t as int).push(line@[t as int]));
            t = t + 1;
        }
        assert(line@.subrange(0, line@.len() as int) =~= line@);
        let ghost sub = all.subrange(from as int, k + 1);
        assert(sub.drop_last() =~= all.subrange(from as int, k as int));
        assert(all[k as int] == line@);
        if k > from {
            assert(out@ =~= o + seq!['\n'] + line@);
        } else {
            assert(o =~= Seq::<char>::empty());
            assert(out@ =~= line@);
        }
        k = k + 1;
    }
    assert(ls@.subrange(from as int, ls@.len() as int).map_values(|l: Vec<char>| l@) =~= all.subrange(
        from as int,
        ls@.len() as int,
    ));
    string_from_chars(out.as_slice())
}

fn ytdlp_failure(code: Option<i32>, stderr: &[u8]) -> (r: String)
    ensures
        r@ == spec_ytdlp_failure(code, stderr@),
{
    let err = utf8_lossy(stderr);
    let tail = trimmed(err.as_str());
    if tail.as_str().is_empty() {
        let d = debug_code(code);
        return cat("yt-dlp завершился с кодом ", d.as_str());
    }
    let tc = chars_of(tail.as_str());
    let ls = lines_of(tc.as_slice());
    let ghost lv = lines(tail@);
    assert(ls@.map_values(|l: Vec<char>| l@) =~= lv);
    let snippet = if ls.len() > 4 {
        let s = join_lines(&ls, ls.len() - 4);
        assert(ls@.subrange(ls@.len() - 4, ls@.len() as int).map_values(|l: Vec<char>| l@)
            =~= lv.subrange(lv.len() - 4, lv.len() as int));
        s
    } else {
        tail
    };
    cat("YouTube/yt-dlp: ", snippet.as_str())
}

/// A yt-dlp search read from its exit status, exit code and output.
pub fn ytdlp_search_results(
    success: bool,
    code: Option<i32>,
    stdout: &[u8],
    stderr: &[u8],
    query: &str,
) -> (r: Result<Vec<TrackInfo>, String>)
    ensures
        match r {
            Ok(v) => spec_ytdlp_search_results(success, code, stdout@, stderr@, query@) == Ok::<
                Seq<TrackModel>,
                Seq<char>,
            >(tviews(v@)),
            Err(e) => spec_ytdlp_search_results(success, code, stdout@, stderr@, query@) == Err::<
                Seq<TrackModel>,
                Seq<char>,
            >(e@),
        },
{
    if !success && stdout.len() == 0 {
        return Err(ytdlp_failure(code, stderr));
    }
    let text = utf8_lossy(stdout);
    let cs = chars_of(text.as_str());
    let ls = lines_of(cs.as_slice());
    let ghost lv = lines(text@);
    let mut out: Vec<TrackInfo> = Vec::new();
    let mut i: usize = 0;
    while i < ls.len()
        invariant
            ls@.len() == lv.len(),
            forall|k: int| 0 <= k < ls@.len() ==> #[trigger] ls@[k]@ == lv[k],
            i <= ls@.len(),
            tviews(out@) == ytdlp_tracks_upto(lv, i as int),
        decreases ls@.len() - i,
    {
        assert(ls@[i as int]@ == lv[i as int]);
        match ytdlp_line(ls[i].as_slice()) {
            Some(t) => {
                if !contains_id(&out, &t.id) {
                    let ghost before = tviews(out@);
                    out.push(t);
                    assert(tviews(out@) =~= before.push(out@.last()@));
                }
            },
            None => {},
        }
        i = i + 1;
    }
    if out.len() == 0 {
        Err(cat3("Ничего не найдено на YouTube по запросу «", query, "»."))
    } else {
        Ok(out)
    }
}

/// The first output line that is an `http(s)` URL, trimmed (empty when there is none).
pub open spec fn first_url_line(ls: Seq<Seq<char>>) -> Seq<char>
    decreases ls.len(),
{
    if ls.len() == 0 {
        seq![]
    } else if starts_with(ls[0], "http://"@) || starts_with(ls[0], "https://"@) {
        trim(ls[0])
    } else {
        first_url_line(ls.drop_first())
    }
}

/// Stream URL printed by `yt-dlp -g`, or why there is none.
pub open spec fn spec_ytdlp_stream_result(success: bool, stdout: Seq<u8>, stderr: Seq<u8>) -> Result<Seq<char>, Seq<char>> {
    if !success {
        Err(trim(spec_utf8_lossy(stderr)))
    } else {
        let url = first_url_line(lines(spec_utf8_lossy(stdout)));
        if url.len() == 0 {
            Err("yt-dlp не вернул URL потока"@)
        } else {
            Ok(url)
        }
    }
}

pub fn ytdlp_stream_result(success: bool, stdout: &[u8], stderr: &[u8]) -> (r: Result<String, String>)
    ensures
        match r {
            Ok(u) => spec_ytdlp_stream_result(success, stdout@, stderr@) == Ok::<Seq<char>, Seq<char>>(u@),
            Err(e) => spec_ytdlp_stream_result(success, stdout@, stderr@) == Err::<Seq<char>, Seq<char>>(e@),
        },
{
    if !success {
        let e = utf8_lossy(stderr);
        return Err(trimmed(e.as_str()));
    }
    let text = utf8_lossy(stdout);
    let cs = chars_of(text.as_str());
    let ls = lines_of(cs.as_slice());
    let ghost lv = lines(text@);
    let http = chars_of("http://");
    let https = chars_of("https://");
    let mut i: usize = 0;
    assert(lv.subrange(0, lv.len() as int) =~= lv);
    while i < ls.len()
        invariant
            ls@.len() == lv.len(),
            forall|k: int| 0 <= k < ls@.len() ==> #[trigger] ls@[k]@ == lv[k],
            i <= ls@.len(),
            http@ == "http://"@,
            https@ == "https://"@,
            lv == lines(spec_utf8_lossy(stdout@)),
            success,
            first_url_line(lv) == first_url_line(lv.subrange(i as int, lv.len() as int)),
        decreases ls@.len() - i,
    {
        let ghost sub = lv.subrange(i as int, lv.len() as int);
        assert(sub.drop_first() =~= lv.subrange(i + 1, lv.len() as int));
        assert(sub[0] == ls@[i as int]@);
        let l = ls[i].as_slice();
        if slice_starts_with(l, http.as_slice()) || slice_starts_with(l, https.as_slice()) {
            let t = trim_slice(l);
            assert(first_url_line(sub) == trim(sub[0]));
            assert(first_url_line(lv) == t@);
            let u = string_from_chars(t);
            if t.len() == 0 {
                return Err(owned("yt-dlp не вернул URL потока"));
            }
            return Ok(u);
        }
        i = i + 1;
    }
    assert(lv.subrange(i as int, lv.len() as int) =~= Seq::<Seq<char>>::empty());
    Err(owned("yt-dlp не вернул URL потока"))
}

// ---------------------------------------------------------------- download progress

/// Value of a digit string, capped at 1000 (a percentage has at most three digits).
pub open spec fn capped_value(d: Seq<char>) -> nat {
    if digits_value(d) > 1000 {
        1000
    } else {
        digits_value(d)
    }
}

/// Percentage in a progress line: the first [`RE_YTDLP_PERCENT`] match, read as a
/// whole number when it is made of ASCII digits.
pub open spec fn spec_line_percent(line: Seq<char>) -> Option<nat> {
    match spec_regex_captures(RE_YTDLP_PERCENT@, line) {
        Some(g) => match group(g, 1) {
            Some(d) => if d.len() > 0 && forall|k: int| 0 <= k < d.len() ==> crate::text::is_ascii_digit(#[trigger] d[k]) {
                Some(capped_value(d))
            } else {
                None
            },
            None => None,
        },
        None => None,
    }
}

/// Value of a string of ASCII digits.
pub open spec fn digits_value(d: Seq<char>) -> nat
    decreases d.len(),
{
    if d.len() == 0 {
        0
    } else {
        digits_value(d.drop_last()) * 10 + ((d.last() as u32) - ('0' as u32)) as nat
    }
}

} // verus!
