//! The "my files" view: which files of the downloads folder are media, how they are
//! named and in which order they are listed.
use vstd::prelude::*;
use vstd::slice::slice_subrange;
use crate::playlist::PlaylistItem;
use crate::text::{chars_of, owned, spec_to_lowercase, string_from_chars, to_lowercase};

verus! {

broadcast use vstd::string::group_string_axioms;

/// A media file found in the downloads folder.
#[derive(Debug)]
pub struct LocalMedia {
    /// The file's path, as text.
    pub path: String,
    pub display_name: String,
    pub is_video: bool,
    pub size_bytes: u64,
}

pub struct MediaModel {
    pub path: Seq<char>,
    pub display_name: Seq<char>,
    pub is_video: bool,
    pub size_bytes: nat,
}

impl View for LocalMedia {
    type V = MediaModel;

    open spec fn view(&self) -> MediaModel {
        MediaModel {
            path: self.path@,
            display_name: self.display_name@,
            is_video: self.is_video,
            size_bytes: self.size_bytes as nat,
        }
    }
}

impl Clone for LocalMedia {
    fn clone(&self) -> (r: Self)
        ensures
            r@ == self@,
    {
        LocalMedia {
            path: self.path.clone(),
            display_name: self.display_name.clone(),
            is_video: self.is_video,
            size_bytes: self.size_bytes,
        }
    }
}

/// Position of the last `.` in `s` at or before `n - 1`, if any.
pub open spec fn last_dot_before(s: Seq<char>, n: int) -> Option<int>
    decreases n,
{
    if n <= 0 {
        None
    } else if s[n - 1] == '.' {
        Some(n - 1)
    } else {
        last_dot_before(s, n - 1)
    }
}

/// Where a file name splits into stem and extension (`Path::file_stem` and
/// `Path::extension`): at its last dot, unless the name is `..`, has no dot, or its
/// only dot is the first character.
pub open spec fn ext_dot(name: Seq<char>) -> Option<int> {
    if name == ".."@ {
        None
    } else {
        match last_dot_before(name, name.len() as int) {
            Some(i) if i > 0 => Some(i),
            _ => None,
        }
    }
}

pub open spec fn file_stem(name: Seq<char>) -> Seq<char> {
    match ext_dot(name) {
        Some(i) => name.subrange(0, i),
        None => name,
    }
}

pub open spec fn file_extension(name: Seq<char>) -> Option<Seq<char>> {
    match ext_dot(name) {
        Some(i) => Some(name.subrange(i + 1, name.len() as int)),
        None => None,
    }
}

/// Extensions listed as media.
pub open spec fn is_media_ext(e: Seq<char>) -> bool {
    e == "mp3"@ || e == "mp4"@ || e == "m4a"@ || e == "opus"@ || e == "webm"@ || e == "mkv"@
        || e == "wav"@ || e == "flac"@
}

/// Extensions listed as video.
pub open spec fn is_video_ext(e: Seq<char>) -> bool {
    e == "mp4"@ || e == "webm"@ || e == "mkv"@
}

/// The library entry for the file `name` at `path` of `size` bytes: only files whose
/// lower-cased extension is a media extension are listed, under their stem.
pub open spec fn spec_media_entry(path: Seq<char>, name: Seq<char>, size: nat) -> Option<MediaModel> {
    match file_extension(name) {
        Some(e) => {
            let ext = spec_to_lowercase(e);
            if is_media_ext(ext) {
                Some(
                    MediaModel {
                        path,
                        display_name: file_stem(name),
                        is_video: is_video_ext(ext),
                        size_bytes: size,
                    },
                )
            } else {
                None
            }
        },
        None => None,
    }
}

/// A file is listed exactly when it has an extension that, lower-cased, is one of
/// mp3, mp4, m4a, opus, webm, mkv, wav and flac; it is listed under its stem, with its
/// path and size, and marked video exactly when that extension is mp4, webm or mkv.
pub proof fn lemma_media_entry_kind(path: Seq<char>, name: Seq<char>, size: nat)
    ensures
        spec_media_entry(path, name, size) is Some <==> (file_extension(name) matches Some(e) && {
            let x = spec_to_lowercase(e);
            x == "mp3"@ || x == "mp4"@ || x == "m4a"@ || x == "opus"@ || x == "webm"@ || x == "mkv"@
                || x == "wav"@ || x == "flac"@
        }),
        spec_media_entry(path, name, size) matches Some(m) ==> {
            &&& m.path == path
            &&& m.display_name == file_stem(name)
            &&& m.size_bytes == size
            &&& file_extension(name) matches Some(e) && (m.is_video <==> {
                let x = spec_to_lowercase(e);
                x == "mp4"@ || x == "webm"@ || x == "mkv"@
            })
        },
{
}

fn find_ext_dot(name: &Vec<char>) -> (r: Option<usize>)
    ensures
        match r {
            Some(i) => ext_dot(name@) == Some(i as int) && 0 < i < name@.len(),
            None => ext_dot(name@) is None,
        },
{
    proof {
        reveal_strlit("..");
    }
    if name.len() == 2 && name[0] == '.' && name[1] == '.' {
        assert(name@ =~= ".."@);
        return None;
    }
    assert(name@ != ".."@);
    let mut n = name.len();
    while n > 0
        invariant
            n <= name@.len(),
            name@ != ".."@,
            last_dot_before(name@, name@.len() as int) == last_dot_before(name@, n as int),
        decreases n,
    {
        if name[n - 1] == '.' {
            if n - 1 > 0 {
                return Some(n - 1);
            } else {
                return None;
            }
        }
        n = n - 1;
    }
    None
}

fn ext_is(e: &str, x: &str) -> (b: bool)
    ensures
        b == (e@ == x@),
{
    crate::types::str_eq(e, x)
}

/// The library entry for a file, or `None` when it is not a media file.
pub fn media_entry(path: &str, file_name: &str, size_bytes: u64) -> (r: Option<LocalMedia>)
    ensures
        match r {
            Some(m) => spec_media_entry(path@, file_name@, size_bytes as nat) == Some(m@),
            None => spec_media_entry(path@, file_name@, size_bytes as nat) is None,
        },
{
    let cs = chars_of(file_name);
    let dot = match find_ext_dot(&cs) {
        Some(i) => i,
        None => return None,
    };
    let n = cs.len();
    let e = string_from_chars(slice_subrange(cs.as_slice(), dot + 1, n));
    let ext = to_lowercase(e.as_str());
    let x = ext.as_str();
    let media = ext_is(x, "mp3") || ext_is(x, "mp4") || ext_is(x, "m4a") || ext_is(x, "opus")
        || ext_is(x, "webm") || ext_is(x, "mkv") || ext_is(x, "wav") || ext_is(x, "flac");
    if !media {
        return None;
    }
    let video = ext_is(x, "mp4") || ext_is(x, "webm") || ext_is(x, "mkv");
    let stem = string_from_chars(slice_subrange(cs.as_slice(), 0, dot));
    Some(LocalMedia { path: owned(path), display_name: stem, is_video: video, size_bytes })
}

// ---------------------------------------------------------------- order

/// `x` placed into `s` after every element at least as recent.
pub open spec fn insert_newest(s: Seq<(MediaModel, int)>, x: (MediaModel, int)) -> Seq<(MediaModel, int)>
    decreases s.len(),
{
    if s.len() == 0 {
        seq![x]
    } else if s.last().1 < x.1 {
        insert_newest(s.drop_last(), x).push(s.last())
    } else {
        s.push(x)
    }
}

/// Newest first; files modified at the same time keep their order (a stable sort).
pub open spec fn sort_newest_first(s: Seq<(MediaModel, int)>) -> Seq<(MediaModel, int)>
    decreases s.len(),
{
    if s.len() == 0 {
        seq![]
    } else {
        insert_newest(sort_newest_first(s.drop_last()), s.last())
    }
}

pub open spec fn newest_first(s: Seq<(MediaModel, int)>) -> bool {
    forall|i: int, j: int| 0 <= i < j < s.len() ==> #[trigger] s[i].1 >= #[trigger] s[j].1
}

proof fn lemma_insert_newest(s: Seq<(MediaModel, int)>, x: (MediaModel, int))
    requires
        newest_first(s),
    ensures
        newest_first(insert_newest(s, x)),
        insert_newest(s, x).len() == s.len() + 1,
        insert_newest(s, x).to_multiset() == s.to_multiset().insert(x),
    decreases s.len(),
{
    broadcast use vstd::seq_lib::group_to_multiset_ensures;
    if s.len() == 0 {
        assert(seq![x] =~= Seq::<(MediaModel, int)>::empty().push(x));
    } else if s.last().1 < x.1 {
        let t = s.drop_last();
        lemma_insert_newest(t, x);
        let r = insert_newest(t, x);
        assert(s =~= t.push(s.last()));
        assert forall|k: int| 0 <= k < r.len() implies #[trigger] r[k].1 >= s.last().1 by {
            assert(r.to_multiset().count(r[k]) > 0);
            if r[k] != x {
                assert(t.to_multiset().count(r[k]) > 0);
                let m = choose|m: int| 0 <= m < t.len() && t[m] == r[k];
                assert(s[m] == t[m]);
            }
        }
    }
}

/// The listing is ordered newest first and holds exactly the files it was given.
pub proof fn lemma_sort_newest_first(s: Seq<(MediaModel, int)>)
    ensures
        newest_first(sort_newest_first(s)),
        sort_newest_first(s).to_multiset() == s.to_multiset(),
    decreases s.len(),
{
    broadcast use vstd::seq_lib::group_to_multiset_ensures;
    if s.len() > 0 {
        lemma_sort_newest_first(s.drop_last());
        lemma_insert_newest(sort_newest_first(s.drop_last()), s.last());
        assert(s =~= s.drop_last().push(s.last()));
    }
}

pub open spec fn keyed_view(v: Seq<(LocalMedia, i128)>) -> Seq<(MediaModel, int)> {
    v.map_values(|e: (LocalMedia, i128)| (e.0@, e.1 as int))
}

pub open spec fn media_view(v: Seq<LocalMedia>) -> Seq<MediaModel> {
    v.map_values(|m: LocalMedia| m@)
}

/// The files, newest first, given each file with its modification time (nanoseconds
/// from the UNIX epoch, `0` where the time could not be read).
pub fn sort_by_modified(entries: Vec<(LocalMedia, i128)>) -> (r: Vec<LocalMedia>)
    ensures
        media_view(r@) == sort_newest_first(keyed_view(entries@)).map_values(
            |e: (MediaModel, int)| e.0,
        ),
{
    let ghost kv = keyed_view(entries@);
    let mut out: Vec<(LocalMedia, i128)> = Vec::new();
    let n = entries.len();
    let mut i: usize = 0;
    while i < n
        invariant
            n == entries@.len(),
            kv == keyed_view(entries@),
            i <= n,
            keyed_view(out@) == sort_newest_first(kv.take(i as int)),
        decreases n - i,
    {
        let x = (entries[i].0.clone(), entries[i].1);
        assert(kv[i as int] == (x.0@, x.1 as int));
        let ghost o = keyed_view(out@);
        let mut j = out.len();
        assert(o.take(j as int) =~= o);
        assert(o.skip(j as int) =~= Seq::<(MediaModel, int)>::empty());
        while j > 0 && out[j - 1].1 < x.1
            invariant
                j <= out@.len(),
                keyed_view(out@) == o,
                insert_newest(o, (x.0@, x.1 as int)) == insert_newest(
                    o.take(j as int),
                    (x.0@, x.1 as int),
                ) + o.skip(j as int),
            decreases j,
        {
            let ghost t = o.take(j as int);
            assert(t.drop_last() =~= o.take(j - 1));
            assert(t.last() == o[j - 1]);
            assert(o.skip(j - 1) =~= seq![o[j - 1]] + o.skip(j as int));
            assert(insert_newest(o.take(j - 1), (x.0@, x.1 as int)).push(o[j - 1]) + o.skip(
                j as int,
            ) =~= insert_newest(o.take(j - 1), (x.0@, x.1 as int)) + o.skip(j - 1));
            j = j - 1;
        }
        proof {
            if j > 0 {
                assert(o.take(j as int).last() == o[j - 1]);
            }
            assert(insert_newest(o, (x.0@, x.1 as int)) =~= o.insert(j as int, (x.0@, x.1 as int)));
        }
        out.insert(j, x);
        assert(keyed_view(out@) =~= o.insert(j as int, (x.0@, x.1 as int)));
        assert(kv.take(i + 1).drop_last() =~= kv.take(i as int));
        i = i + 1;
    }
    assert(kv.take(n as int) =~= kv);
    let ghost sorted = keyed_view(out@);
    let mut r: Vec<LocalMedia> = Vec::new();
    let mut k: usize = 0;
    while k < out.len()
        invariant
            sorted == keyed_view(out@),
            k <= out@.len(),
            media_view(r@) == sorted.take(k as int).map_values(|e: (MediaModel, int)| e.0),
        decreases out@.len() - k,
    {
        let ghost before = media_view(r@);
        r.push(out[k].0.clone());
        assert(media_view(r@) =~= before.push(sorted[k as int].0));
        assert(sorted.take(k + 1).map_values(|e: (MediaModel, int)| e.0) =~= sorted.take(
            k as int,
        ).map_values(|e: (MediaModel, int)| e.0).push(sorted[k as int].0));
        k = k + 1;
    }
    assert(sorted.take(out@.len() as int) =~= sorted);
    r
}

/// The playlist entry for a library file.
pub fn library_item(f: &LocalMedia) -> (r: PlaylistItem)
    ensures
        r.path_or_url@ == f.path@,
        r.title@ == f.display_name@,
        r.subtitle@ == (if f.is_video {
            "Видео"@
        } else {
            "Локальный файл"@
        }),
        r.is_video == f.is_video,
        !r.is_url,
{
    PlaylistItem {
        path_or_url: f.path.clone(),
        title: f.display_name.clone(),
        subtitle: if f.is_video {
            owned("Видео")
        } else {
            owned("Локальный файл")
        },
        is_video: f.is_video,
        is_url: false,
    }
}

} // verus!
