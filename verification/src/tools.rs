//! External programs: locating them from `which` output, the mpv build to download,
//! and the command lines the player is started with.
use vstd::prelude::*;
use vstd::slice::slice_subrange;
use crate::patterns::{groups_view, regex_captures_all, spec_regex_captures_all, RE_SHINCHIRO_ASSET};
use crate::sources::{cap_at, cap_or_empty, cat, utf8_lossy, spec_utf8_lossy};
use crate::text::{
    chars_of, contains, lines, lines_of, owned, starts_with, str_contains, str_starts_with,
    string_from_chars, trim, trim_bounds,
};

verus! {

broadcast use vstd::string::group_string_axioms;

/// Path printed by `which` (or `where`): the first line of its output, trimmed, when
/// that is not empty.
pub open spec fn spec_which_output_path(stdout: Seq<u8>) -> Option<Seq<char>> {
    let ls = lines(spec_utf8_lossy(stdout));
    let first = if ls.len() > 0 {
        trim(ls[0])
    } else {
        seq![]
    };
    if first.len() == 0 {
        None
    } else {
        Some(first)
    }
}

pub fn which_output_path(stdout: &[u8]) -> (r: Option<String>)
    ensures
        crate::text::opt_string_view(r) == spec_which_output_path(stdout@),
{
    let text = utf8_lossy(stdout);
    let cs = chars_of(text.as_str());
    let ls = lines_of(cs.as_slice());
    if ls.len() == 0 {
        return None;
    }
    let l = ls[0].as_slice();
    let (a, b) = trim_bounds(l);
    if b <= a {
        return None;
    }
    Some(string_from_chars(slice_subrange(l, a, b)))
}

// ---------------------------------------------------------------- mpv build

/// Among the first `n` release assets, the download URL to use for archives named
/// `prefix…`: the first whose name mentions `v3`, else the first of them at all.
pub open spec fn pick_asset_upto(caps: Seq<Seq<Option<Seq<char>>>>, prefix: Seq<char>, n: int) -> (Option<Seq<char>>, Option<Seq<char>>)
    decreases n,
{
    if n <= 0 {
        (None, None)
    } else {
        let (v3, first) = pick_asset_upto(caps, prefix, n - 1);
        let name = cap_or_empty(caps[n - 1], 1);
        let url = cap_or_empty(caps[n - 1], 2);
        if v3 is Some || !starts_with(name, prefix) {
            (v3, first)
        } else if contains(name, "v3"@) {
            (Some(url), first)
        } else if first is None {
            (v3, Some(url))
        } else {
            (v3, first)
        }
    }
}

/// The mpv archive to download from the GitHub release listing `body`.
pub open spec fn spec_pick_mpv_asset(body: Seq<char>, prefix: Seq<char>) -> Result<Seq<char>, Seq<char>> {
    let caps = spec_regex_captures_all(RE_SHINCHIRO_ASSET@, body);
    let (v3, first) = pick_asset_upto(caps, prefix, caps.len() as int);
    match v3 {
        Some(u) => Ok(u),
        None => match first {
            Some(u) => Ok(u),
            None => Err("Сборка mpv не найдена на GitHub"@),
        },
    }
}

pub fn pick_mpv_asset(body: &str, prefix: &str) -> (r: Result<String, String>)
    ensures
        match r {
            Ok(u) => spec_pick_mpv_asset(body@, prefix@) == Ok::<Seq<char>, Seq<char>>(u@),
            Err(e) => spec_pick_mpv_asset(body@, prefix@) == Err::<Seq<char>, Seq<char>>(e@),
        },
{
    let caps = regex_captures_all(RE_SHINCHIRO_ASSET, body);
    let ghost cv = spec_regex_captures_all(RE_SHINCHIRO_ASSET@, body@);
    let mut fallback: Option<String> = None;
    let mut i: usize = 0;
    while i < caps.len()
        invariant
            cv == spec_regex_captures_all(RE_SHINCHIRO_ASSET@, body@),
            caps@.len() == cv.len(),
            forall|k: int| 0 <= k < caps@.len() ==> groups_view(#[trigger] caps@[k]@) == cv[k],
            i <= caps@.len(),
            pick_asset_upto(cv, prefix@, i as int) == (
                None::<Seq<char>>,
                crate::text::opt_string_view(fallback),
            ),
        decreases caps@.len() - i,
    {
        let g = &caps[i];
        assert(groups_view(g@) == cv[i as int]);
        let name = cap_at(g, 1);
        let url = cap_at(g, 2);
        if str_starts_with(name.as_str(), prefix) {
            if str_contains(name.as_str(), "v3") {
                proof {
                    lemma_v3_sticks(cv, prefix@, i + 1, cv.len() as int);
                }
                return Ok(url);
            }
            if fallback.is_none() {
                fallback = Some(url);
            }
        }
        i = i + 1;
    }
    match fallback {
        Some(u) => Ok(u),
        None => Err(owned("Сборка mpv не найдена на GitHub")),
    }
}

proof fn lemma_v3_sticks(caps: Seq<Seq<Option<Seq<char>>>>, prefix: Seq<char>, i: int, n: int)
    requires
        0 <= i <= n,
        pick_asset_upto(caps, prefix, i).0 is Some,
    ensures
        pick_asset_upto(caps, prefix, n).0 == pick_asset_upto(caps, prefix, i).0,
    decreases n - i,
{
    if i < n {
        lemma_v3_sticks(caps, prefix, i, n - 1);
    }
}

// ---------------------------------------------------------------- player command lines

pub open spec fn strings(v: Seq<String>) -> Seq<Seq<char>> {
    v.map_values(|s: String| s@)
}

/// Arguments mpv is started with to play `target` under `title`, controlled through
/// the IPC socket `socket`; audio is played without a window.
pub open spec fn spec_mpv_args(title: Seq<char>, is_video: bool, socket: Seq<char>, target: Seq<char>) -> Seq<Seq<char>> {
    seq!["--really-quiet"@, "--no-terminal"@, "--title"@, title] + (if is_video {
        seq![]
    } else {
        seq!["--no-video"@, "--force-window=no"@]
    }) + seq!["--input-ipc-server="@ + socket, target]
}

pub fn mpv_args(title: &str, is_video: bool, socket: &str, target: &str) -> (r: Vec<String>)
    ensures
        strings(r@) == spec_mpv_args(title@, is_video, socket@, target@),
{
    let mut args: Vec<String> = Vec::new();
    args.push(owned("--really-quiet"));
    args.push(owned("--no-terminal"));
    args.push(owned("--title"));
    args.push(owned(title));
    if !is_video {
        args.push(owned("--no-video"));
        args.push(owned("--force-window=no"));
    }
    args.push(cat("--input-ipc-server=", socket));
    args.push(owned(target));
    assert(strings(args@) =~= spec_mpv_args(title@, is_video, socket@, target@));
    args
}

/// Arguments of the `ffplay` fallback: audio plays without a window and ends with the
/// stream.
pub open spec fn spec_ffplay_args(is_video: bool, target: Seq<char>) -> Seq<Seq<char>> {
    if is_video {
        seq![target]
    } else {
        seq!["-nodisp"@, "-autoexit"@, target]
    }
}

pub fn ffplay_args(is_video: bool, target: &str) -> (r: Vec<String>)
    ensures
        strings(r@) == spec_ffplay_args(is_video, target@),
{
    let mut args: Vec<String> = Vec::new();
    if !is_video {
        args.push(owned("-nodisp"));
        args.push(owned("-autoexit"));
    }
    args.push(owned(target));
    assert(strings(args@) =~= spec_ffplay_args(is_video, target@));
    args
}

/// Subtitle shown while the external player runs.
pub fn external_subtitle(is_video: bool) -> (r: &'static str)
    ensures
        r@ == (if is_video {
            "Видео (mpv)"@
        } else {
            "Стрим (mpv)"@
        }),
{
    if is_video {
        "Видео (mpv)"
    } else {
        "Стрим (mpv)"
    }
}

} // verus!
