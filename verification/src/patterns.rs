//! The regular expressions of the project and the calls into the `regex` crate.
//!
//! What a pattern matches is decided by the `regex` crate; its results are named
//! here and the logic built on them is verified against those names.
use vstd::prelude::*;
use crate::text::opt_string_view;

verus! {

/// Track id in an MP3Party link: after `/download/` or `/music/`, or the last path
/// segment when it is all digits.
pub const RE_ID_EXTRACT: &'static str = r"(?:/download/|/music/)(\d+)|(?:^|/)(\d+)/?$";

/// A bare numeric id.
pub const RE_DIGITS: &'static str = r"^\d+$";

/// A progress percentage in yt-dlp output.
pub const RE_YTDLP_PERCENT: &'static str = r"(\d{1,3})(?:\.\d+)?%";

/// A DriveMusic MP3 file URL on a track page.
pub const RE_DRIVEMUSIC_MP3: &'static str = r#"https://[a-z0-9.-]*drivemusic\.me/dl/[^"\s<>]+\.mp3"#;

/// One search hit on DriveMusic: page path, id, author, composition.
pub const RE_DRIVEMUSIC_SEARCH: &'static str = r#"(?s)href="(/[a-z0-9_]+/(\d+)-[^"]+\.html)"[^>]*class="popular-play-author"[^>]*>([^<]*)</a>.*?popular-play-composition.*?>(?:<a[^>]*>)?([^<]*)"#;

/// One track in the JSON embedded in a Pesni.me page: id, artist, title, version,
/// duration, bitrate, size, play URL, download URL.
pub const RE_PESNIME_TRACK: &'static str = r#"\\"id\\":(\d+),\\"artist\\":\\"([^"\\]*)\\",\\"title\\":\\"([^"\\]*)\\",\\"version\\":\\"[^"\\]*\\",\\"duration\\":(\d+),\\"bitrate\\":([^,]*),\\"size\\":([^,]*),\\"play\\":\\"([^"\\]+)\\",\\"download\\":\\"([^"\\]+)\\""#;

/// One release asset in the GitHub API answer for mpv builds: archive name and URL.
pub const RE_SHINCHIRO_ASSET: &'static str = r#""name":"([^"]+\.7z)"[^}]*"browser_download_url":"([^"]+)""#;

/// Capture groups as optional strings; group 0 is the whole match.
pub open spec fn groups_view(g: Seq<Option<String>>) -> Seq<Option<Seq<char>>> {
    g.map_values(|o: Option<String>| opt_string_view(o))
}

/// Group `k`, or `None` when the match has no such group or the group did not take part.
pub open spec fn group(g: Seq<Option<Seq<char>>>, k: int) -> Option<Seq<char>> {
    if 0 <= k < g.len() {
        g[k]
    } else {
        None
    }
}

/// Capture groups of the leftmost match of `pattern` in `hay` (`Regex::captures`),
/// `None` when there is no match.
pub uninterp spec fn spec_regex_captures(pattern: Seq<char>, hay: Seq<char>) -> Option<Seq<Option<Seq<char>>>>;

/// Capture groups of every successive non-overlapping match (`Regex::captures_iter`).
pub uninterp spec fn spec_regex_captures_all(pattern: Seq<char>, hay: Seq<char>) -> Seq<Seq<Option<Seq<char>>>>;

/// Text of every successive non-overlapping match (`Regex::find_iter`).
pub uninterp spec fn spec_regex_find_all(pattern: Seq<char>, hay: Seq<char>) -> Seq<Seq<char>>;

/// `Regex::is_match`.
pub uninterp spec fn spec_regex_is_match(pattern: Seq<char>, hay: Seq<char>) -> bool;

/// `regex::Regex::new(pattern)` then `Regex::captures(hay)`: the groups of the leftmost
/// match, as owned strings.  The result is a function of the pattern and the text,
/// named [`spec_regex_captures`]; which text matches is not stated here.  A pattern
/// that does not compile gives `None` (the project's patterns all compile).
#[verifier::external_body]
pub(crate) fn regex_captures(pattern: &str, hay: &str) -> (r: Option<Vec<Option<String>>>)
    ensures
        match r {
            Some(g) => spec_regex_captures(pattern@, hay@) == Some(groups_view(g@)),
            None => spec_regex_captures(pattern@, hay@) is None,
        },
{
    let re = regex::Regex::new(pattern).ok()?;
    let caps = re.captures(hay)?;
    Some(caps.iter().map(|m| m.map(|m| m.as_str().to_string())).collect())
}

/// `regex::Regex::new(pattern)` then `Regex::captures_iter(hay)`: the groups of each
/// match in order, named [`spec_regex_captures_all`].  A pattern that does not compile
/// gives no matches.
#[verifier::external_body]
pub(crate) fn regex_captures_all(pattern: &str, hay: &str) -> (r: Vec<Vec<Option<String>>>)
    ensures
        r@.len() == spec_regex_captures_all(pattern@, hay@).len(),
        forall|i: int|
            0 <= i < r@.len() ==> groups_view(#[trigger] r@[i]@) == spec_regex_captures_all(
                pattern@,
                hay@,
            )[i],
{
    match regex::Regex::new(pattern) {
        Ok(re) => re
            .captures_iter(hay)
            .map(|c| c.iter().map(|m| m.map(|m| m.as_str().to_string())).collect())
            .collect(),
        Err(_) => Vec::new(),
    }
}

/// `regex::Regex::new(pattern)` then `Regex::find_iter(hay)`: the text of each match
/// in order, named [`spec_regex_find_all`].  A pattern that does not compile gives no
/// matches.
#[verifier::external_body]
pub(crate) fn regex_find_all(pattern: &str, hay: &str) -> (r: Vec<String>)
    ensures
        r@.len() == spec_regex_find_all(pattern@, hay@).len(),
        forall|i: int|
            0 <= i < r@.len() ==> (#[trigger] r@[i])@ == spec_regex_find_all(pattern@, hay@)[i],
{
    match regex::Regex::new(pattern) {
        Ok(re) => re.find_iter(hay).map(|m| m.as_str().to_string()).collect(),
        Err(_) => Vec::new(),
    }
}

/// `regex::Regex::new(pattern)` then `Regex::is_match(hay)`, named
/// [`spec_regex_is_match`].  A pattern that does not compile matches nothing.
#[verifier::external_body]
pub(crate) fn regex_is_match(pattern: &str, hay: &str) -> (r: bool)
    ensures
        r == spec_regex_is_match(pattern@, hay@),
{
    match regex::Regex::new(pattern) {
        Ok(re) => re.is_match(hay),
        Err(_) => false,
    }
}

} // verus!
