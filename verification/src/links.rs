//! What the user pasted into the import box: direct file links, track pages, bare
//! ids; and how a direct link becomes a track.
use vstd::prelude::*;
use vstd::slice::slice_subrange;
use crate::patterns::{
    group, regex_captures, regex_is_match, spec_regex_captures, spec_regex_is_match,
    RE_DIGITS, RE_ID_EXTRACT,
};
use crate::text::{
    chars_of, contains, ends_with, lines, lines_of, owned, slice_ends_with, spec_to_lowercase,
    starts_with, str_contains, str_ends_with, str_starts_with, string_from_chars, to_lowercase,
    trim, trim_bounds,
};
use crate::types::{TrackInfo, TrackModel};

verus! {

broadcast use vstd::string::group_string_axioms;

// ---------------------------------------------------------------- track ids

/// The id a link carries: group 1 of [`RE_ID_EXTRACT`], else group 2.
pub open spec fn spec_extract_id(url: Seq<char>) -> Option<Seq<char>> {
    match spec_regex_captures(RE_ID_EXTRACT@, url) {
        Some(g) => match group(g, 1) {
            Some(x) => Some(x),
            None => group(g, 2),
        },
        None => None,
    }
}

fn group_at(g: &Vec<Option<String>>, k: usize) -> (r: Option<String>)
    ensures
        crate::text::opt_string_view(r) == group(crate::patterns::groups_view(g@), k as int),
{
    if k < g.len() {
        match &g[k] {
            Some(s) => Some(s.clone()),
            None => None,
        }
    } else {
        None
    }
}

/// Track id of an MP3Party link (`/download/<id>`, `/music/<id>`, or a trailing
/// numeric path segment).
pub fn extract_id(url: &str) -> (r: Option<String>)
    ensures
        crate::text::opt_string_view(r) == spec_extract_id(url@),
{
    match regex_captures(RE_ID_EXTRACT, url) {
        Some(g) => match group_at(&g, 1) {
            Some(x) => Some(x),
            None => group_at(&g, 2),
        },
        None => None,
    }
}

// ---------------------------------------------------------------- import lines

/// A link that is downloaded as it is: an `http(s)` URL of a media file or of a
/// download endpoint (`lower` is the lower-cased line).
pub open spec fn spec_is_direct_link(lower: Seq<char>) -> bool {
    &&& (starts_with(lower, "http://"@) || starts_with(lower, "https://"@))
    &&& {
        ||| ends_with(lower, ".mp3"@)
        ||| ends_with(lower, ".mp4"@)
        ||| ends_with(lower, ".m4a"@)
        ||| ends_with(lower, ".ogg"@)
        ||| ends_with(lower, ".flac"@)
        ||| ends_with(lower, ".wav"@)
        ||| contains(lower, "/download/"@)
        ||| contains(lower, "/dl/online/"@)
        ||| contains(lower, "/dl/download/"@)
        ||| contains(lower, "pl.pesni.me"@)
    }
}

/// How one import line is read.
pub enum LineKind {
    Direct,
    Id(String),
    Unrecognized,
}

pub enum LineKindModel {
    Direct,
    Id(Seq<char>),
    Unrecognized,
}

impl View for LineKind {
    type V = LineKindModel;

    open spec fn view(&self) -> LineKindModel {
        match self {
            LineKind::Direct => LineKindModel::Direct,
            LineKind::Id(s) => LineKindModel::Id(s@),
            LineKind::Unrecognized => LineKindModel::Unrecognized,
        }
    }
}

/// Reading of a trimmed, non-empty import line: direct link, link or text carrying a
/// track id, or neither.
pub open spec fn spec_classify(line: Seq<char>) -> LineKindModel {
    if spec_is_direct_link(spec_to_lowercase(line)) {
        LineKindModel::Direct
    } else if let Some(id) = spec_extract_id(line) {
        LineKindModel::Id(id)
    } else if spec_regex_is_match(RE_DIGITS@, trim(line)) {
        LineKindModel::Id(trim(line))
    } else {
        LineKindModel::Unrecognized
    }
}

fn is_direct_link(lower: &str) -> (b: bool)
    ensures
        b == spec_is_direct_link(lower@),
{
    (str_starts_with(lower, "http://") || str_starts_with(lower, "https://")) && (str_ends_with(
        lower,
        ".mp3",
    ) || str_ends_with(lower, ".mp4") || str_ends_with(lower, ".m4a") || str_ends_with(
        lower,
        ".ogg",
    ) || str_ends_with(lower, ".flac") || str_ends_with(lower, ".wav") || str_contains(
        lower,
        "/download/",
    ) || str_contains(lower, "/dl/online/") || str_contains(lower, "/dl/download/")
        || str_contains(lower, "pl.pesni.me"))
}

fn trimmed(s: &str) -> (r: String)
    ensures
        r@ == trim(s@),
{
    let cs = chars_of(s);
    let (a, b) = trim_bounds(cs.as_slice());
    string_from_chars(slice_subrange(cs.as_slice(), a, b))
}

pub fn classify_line(line: &str) -> (k: LineKind)
    ensures
        k@ == spec_classify(line@),
{
    let lower = to_lowercase(line);
    if is_direct_link(lower.as_str()) {
        return LineKind::Direct;
    }
    if let Some(id) = extract_id(line) {
        return LineKind::Id(id);
    }
    let t = trimmed(line);
    if regex_is_match(RE_DIGITS, t.as_str()) {
        LineKind::Id(t)
    } else {
        LineKind::Unrecognized
    }
}

/// The work an import amounts to: direct links, and (line, id) pairs to look up.
pub struct ImportPlan {
    pub direct_links: Vec<String>,
    pub ids: Vec<(String, String)>,
}

pub struct ImportPlanModel {
    pub direct: Seq<Seq<char>>,
    pub ids: Seq<(Seq<char>, Seq<char>)>,
}

pub open spec fn pairs_view(v: Seq<(String, String)>) -> Seq<(Seq<char>, Seq<char>)> {
    v.map_values(|p: (String, String)| (p.0@, p.1@))
}

pub open spec fn strs_view(v: Seq<String>) -> Seq<Seq<char>> {
    v.map_values(|s: String| s@)
}

impl View for ImportPlan {
    type V = ImportPlanModel;

    open spec fn view(&self) -> ImportPlanModel {
        ImportPlanModel { direct: strs_view(self.direct_links@), ids: pairs_view(self.ids@) }
    }
}

/// `acc` followed by the outcome `r` of the remaining lines.
pub open spec fn prepend_plan(acc: ImportPlanModel, r: Result<ImportPlanModel, Seq<char>>) -> Result<
    ImportPlanModel,
    Seq<char>,
> {
    match r {
        Ok(p) => Ok(ImportPlanModel { direct: acc.direct + p.direct, ids: acc.ids + p.ids }),
        Err(e) => Err(e),
    }
}

pub proof fn lemma_prepend_plan_assoc(
    a: ImportPlanModel,
    b: ImportPlanModel,
    r: Result<ImportPlanModel, Seq<char>>,
)
    ensures
        prepend_plan(a, prepend_plan(b, r)) == prepend_plan(
            ImportPlanModel { direct: a.direct + b.direct, ids: a.ids + b.ids },
            r,
        ),
{
    if let Ok(p) = r {
        assert(a.direct + (b.direct + p.direct) =~= (a.direct + b.direct) + p.direct);
        assert(a.ids + (b.ids + p.ids) =~= (a.ids + b.ids) + p.ids);
    }
}

/// The plan of a sequence of raw lines: blank lines are skipped; the first line that
/// is neither a link nor an id stops the import with a message naming it.
pub open spec fn spec_import_lines(ls: Seq<Seq<char>>) -> Result<ImportPlanModel, Seq<char>>
    decreases ls.len(),
{
    if ls.len() == 0 {
        Ok(ImportPlanModel { direct: seq![], ids: seq![] })
    } else {
        let t = trim(ls[0]);
        let rest = spec_import_lines(ls.drop_first());
        if t.len() == 0 {
            rest
        } else {
            match spec_classify(t) {
                LineKindModel::Unrecognized => Err("⚠️ Не удалось распознать: "@ + t),
                LineKindModel::Direct => prepend_plan(
                    ImportPlanModel { direct: seq![t], ids: seq![] },
                    rest,
                ),
                LineKindModel::Id(id) => prepend_plan(
                    ImportPlanModel { direct: seq![], ids: seq![(t, id)] },
                    rest,
                ),
            }
        }
    }
}

/// The plan of an import, or the status message explaining why there is nothing to do.
pub open spec fn spec_plan_import(input: Seq<char>) -> Result<ImportPlanModel, Seq<char>> {
    let text = trim(input);
    if text.len() == 0 {
        Err("⚠️ Введите ссылки для парсинга."@)
    } else {
        match spec_import_lines(lines(text)) {
            Err(e) => Err(e),
            Ok(p) => if p.direct.len() + p.ids.len() == 0 {
                Err("⚠️ Нет валидных ссылок."@)
            } else {
                Ok(p)
            },
        }
    }
}

/// Read the import box: which lines are direct links and which carry track ids.
pub fn plan_import(input: &str) -> (r: Result<ImportPlan, String>)
    ensures
        match r {
            Ok(p) => spec_plan_import(input@) == Ok::<ImportPlanModel, Seq<char>>(p@),
            Err(e) => spec_plan_import(input@) == Err::<ImportPlanModel, Seq<char>>(e@),
        },
{
    let text = trimmed(input);
    if text.as_str().is_empty() {
        return Err(owned("⚠️ Введите ссылки для парсинга."));
    }
    let cs = chars_of(text.as_str());
    let ls = lines_of(cs.as_slice());
    let ghost all = lines(text@);
    assert(ls@.map_values(|l: Vec<char>| l@) =~= all);
    let mut direct: Vec<String> = Vec::new();
    let mut ids: Vec<(String, String)> = Vec::new();
    let mut k: usize = 0;
    assert(all.subrange(0, all.len() as int) =~= all);
    while k < ls.len()
        invariant
            all == lines(trim(input@)),
            ls@.len() == all.len(),
            forall|i: int| 0 <= i < ls@.len() ==> #[trigger] ls@[i]@ == all[i],
            k <= ls@.len(),
            spec_import_lines(all) == prepend_plan(
                ImportPlanModel { direct: strs_view(direct@), ids: pairs_view(ids@) },
                spec_import_lines(all.subrange(k as int, all.len() as int)),
            ),
        decreases ls@.len() - k,
    {
        let ghost sub = all.subrange(k as int, all.len() as int);
        assert(sub.drop_first() =~= all.subrange(k + 1, all.len() as int));
        assert(sub[0] == ls@[k as int]@);
        let (a, b) = trim_bounds(ls[k].as_slice());
        let line = string_from_chars(slice_subrange(ls[k].as_slice(), a, b));
        let ghost dv = strs_view(direct@);
        let ghost iv = pairs_view(ids@);
        let ghost rest = spec_import_lines(all.subrange(k + 1, all.len() as int));
        assert(line@ == trim(sub[0]));
        if b > a {
            match classify_line(line.as_str()) {
                LineKind::Unrecognized => {
                    let mut msg = owned("⚠️ Не удалось распознать: ");
                    msg.append(line.as_str());
                    assert(line@.len() > 0);
                    assert(spec_import_lines(sub) == Err::<ImportPlanModel, Seq<char>>(msg@));
                    assert(spec_import_lines(all) == Err::<ImportPlanModel, Seq<char>>(msg@));
                    assert(all == lines(trim(input@)));
                    return Err(msg);
                },
                LineKind::Direct => {
                    direct.push(line);
                    assert(strs_view(direct@) =~= dv + seq![line@]);
                    assert(iv + Seq::<(Seq<char>, Seq<char>)>::empty() =~= iv);
                    proof {
                        lemma_prepend_plan_assoc(
                            ImportPlanModel { direct: dv, ids: iv },
                            ImportPlanModel { direct: seq![line@], ids: seq![] },
                            rest,
                        );
                    }
                },
                LineKind::Id(id) => {
                    let ghost pair = (line@, id@);
                    ids.push((line, id));
                    assert(pairs_view(ids@) =~= iv + seq![pair]);
                    assert(dv + Seq::<Seq<char>>::empty() =~= dv);
                    proof {
                        lemma_prepend_plan_assoc(
                            ImportPlanModel { direct: dv, ids: iv },
                            ImportPlanModel { direct: seq![], ids: seq![pair] },
                            rest,
                        );
                    }
                },
            }
        }
        k = k + 1;
    }
    assert(all.subrange(all.len() as int, all.len() as int) =~= Seq::<Seq<char>>::empty());
    assert(strs_view(direct@) + Seq::<Seq<char>>::empty() =~= strs_view(direct@));
    assert(pairs_view(ids@) + Seq::<(Seq<char>, Seq<char>)>::empty() =~= pairs_view(ids@));
    if direct.len() == 0 && ids.len() == 0 {
        return Err(owned("⚠️ Нет валидных ссылок."));
    }
    Ok(ImportPlan { direct_links: direct, ids })
}

/// A looked-up line is a Pesni.me link.
pub open spec fn spec_is_pesnime_link(line: Seq<char>) -> bool {
    contains(line, "pesni.me"@)
}

pub fn is_pesnime_link(line: &str) -> (b: bool)
    ensures
        b == spec_is_pesnime_link(line@),
{
    str_contains(line, "pesni.me")
}

// ---------------------------------------------------------------- direct links

/// Text after the last `/` (all of `s` when there is none): `rsplit('/').next()`.
pub open spec fn last_segment(s: Seq<char>) -> Seq<char>
    decreases s.len(),
{
    if s.len() == 0 {
        s
    } else if s.last() == '/' {
        seq![]
    } else {
        last_segment(s.drop_last()).push(s.last())
    }
}

/// Text before the first `.`: `split('.').next()`.
pub open spec fn before_first_dot(s: Seq<char>) -> Seq<char>
    decreases s.len(),
{
    if s.len() == 0 {
        s
    } else if s[0] == '.' {
        seq![]
    } else {
        seq![s[0]] + before_first_dot(s.drop_first())
    }
}

/// Every trailing repetition of `p` removed (`trim_end_matches`).
pub open spec fn trim_end_matches(s: Seq<char>, p: Seq<char>) -> Seq<char>
    decreases s.len(),
{
    if p.len() > 0 && ends_with(s, p) {
        trim_end_matches(s.subrange(0, s.len() - p.len()), p)
    } else {
        s
    }
}

/// Characters that may not appear in a file name are replaced by `_`.
pub open spec fn is_filename_reserved(c: char) -> bool {
    c == '/' || c == '\\' || c == ':' || c == '*' || c == '?' || c == '"' || c == '<' || c == '>'
        || c == '|'
}

pub open spec fn spec_sanitize_filename(s: Seq<char>) -> Seq<char> {
    s.map_values(|c: char| if is_filename_reserved(c) { '_' } else { c })
}

pub fn sanitize_filename(s: &str) -> (r: String)
    ensures
        r@ == spec_sanitize_filename(s@),
{
    let cs = chars_of(s);
    let mut out: Vec<char> = Vec::new();
    let mut i: usize = 0;
    while i < cs.len()
        invariant
            i <= cs@.len(),
            cs@ == s@,
            out@ =~= spec_sanitize_filename(cs@.subrange(0, i as int)),
        decreases cs@.len() - i,
    {
        let c = cs[i];
        if c == '/' || c == '\\' || c == ':' || c == '*' || c == '?' || c == '"' || c == '<' || c
            == '>' || c == '|' {
            out.push('_');
        } else {
            out.push(c);
        }
        assert(cs@.subrange(0, i + 1) =~= cs@.subrange(0, i as int).push(c));
        i = i + 1;
    }
    assert(cs@.subrange(0, cs@.len() as int) =~= cs@);
    string_from_chars(out.as_slice())
}

fn last_segment_of(s: &[char]) -> (r: &[char])
    ensures
        r@ == last_segment(s@),
{
    let n = s.len();
    let mut k = n;
    assert(s@.subrange(0, n as int) =~= s@);
    assert(s@ + s@.subrange(n as int, n as int) =~= s@);
    while k > 0 && s[k - 1] != '/'
        invariant
            k <= n == s@.len(),
            last_segment(s@) == last_segment(s@.subrange(0, k as int)) + s@.subrange(
                k as int,
                n as int,
            ),
        decreases k,
    {
        let ghost p = s@.subrange(0, k as int);
        assert(p.drop_last() =~= s@.subrange(0, k - 1));
        assert(s@.subrange(k - 1, n as int) =~= seq![p.last()] + s@.subrange(k as int, n as int));
        k = k - 1;
    }
    assert(s@.subrange(0, n as int) =~= s@);
    assert(last_segment(s@.subrange(0, k as int)) =~= Seq::<char>::empty());
    assert(Seq::<char>::empty() + s@.subrange(k as int, n as int) =~= s@.subrange(k as int, n as int));
    slice_subrange(s, k, n)
}

fn before_first_dot_of(s: &[char]) -> (r: &[char])
    ensures
        r@ == before_first_dot(s@),
{
    let n = s.len();
    let mut k: usize = 0;
    assert(s@.subrange(0, n as int) =~= s@);
    assert(Seq::<char>::empty() + before_first_dot(s@) =~= before_first_dot(s@));
    assert(s@.subrange(0, 0) =~= Seq::<char>::empty());
    while k < n && s[k] != '.'
        invariant
            k <= n == s@.len(),
            before_first_dot(s@) == s@.subrange(0, k as int) + before_first_dot(
                s@.subrange(k as int, n as int),
            ),
        decreases n - k,
    {
        let ghost t = s@.subrange(k as int, n as int);
        assert(t.drop_first() =~= s@.subrange(k + 1, n as int));
        assert(s@.subrange(0, k + 1) =~= s@.subrange(0, k as int) + seq![t[0]]);
        k = k + 1;
    }
    assert(s@.subrange(0, 0) =~= Seq::<char>::empty());
    assert(s@.subrange(0, k as int) + before_first_dot(s@.subrange(k as int, n as int))
        =~= s@.subrange(0, k as int));
    slice_subrange(s, 0, k)
}

fn trim_end_matches_of<'a>(s: &'a [char], p: &[char]) -> (r: &'a [char])
    requires
        p@.len() > 0,
    ensures
        r@ == trim_end_matches(s@, p@),
{
    let mut k = s.len();
    assert(s@.subrange(0, k as int) =~= s@);
    while slice_ends_with(slice_subrange(s, 0, k), p)
        invariant
            k <= s@.len(),
            p@.len() > 0,
            trim_end_matches(s@, p@) == trim_end_matches(s@.subrange(0, k as int), p@),
        decreases k,
    {
        assert(s@.subrange(0, k as int).subrange(0, k - p@.len()) =~= s@.subrange(
            0,
            k - p@.len(),
        ));
        k = k - p.len();
    }
    slice_subrange(s, 0, k)
}

/// What a direct link needs before it becomes a track.
pub enum DirectLink {
    /// An MP3Party download link: look the id up for artist and title.
    Mp3Party(String),
    /// A Pesni.me file link: look the id up.
    PesniMe(String),
    /// Anything else: the file name is the title.
    Plain,
}

pub enum DirectLinkModel {
    Mp3Party(Seq<char>),
    PesniMe(Seq<char>),
    Plain,
}

impl View for DirectLink {
    type V = DirectLinkModel;

    open spec fn view(&self) -> DirectLinkModel {
        match self {
            DirectLink::Mp3Party(s) => DirectLinkModel::Mp3Party(s@),
            DirectLink::PesniMe(s) => DirectLinkModel::PesniMe(s@),
            DirectLink::Plain => DirectLinkModel::Plain,
        }
    }
}

pub open spec fn spec_direct_link_kind(url: Seq<char>) -> DirectLinkModel {
    let lower = spec_to_lowercase(url);
    if contains(lower, "mp3party.net/download/"@) {
        let id = trim_end_matches(trim_end_matches(last_segment(url), ".mp3"@), ".mp4"@);
        if id.len() > 0 {
            DirectLinkModel::Mp3Party(id)
        } else {
            DirectLinkModel::Plain
        }
    } else if contains(lower, "pl.pesni.me"@) || contains(lower, "dw.pesni.me"@) {
        let id = before_first_dot(last_segment(url));
        if id.len() > 0 {
            DirectLinkModel::PesniMe(id)
        } else {
            DirectLinkModel::Plain
        }
    } else {
        DirectLinkModel::Plain
    }
}

pub fn direct_link_kind(url: &str) -> (k: DirectLink)
    ensures
        k@ == spec_direct_link_kind(url@),
{
    let lower = to_lowercase(url);
    let cs = chars_of(url);
    let seg = last_segment_of(cs.as_slice());
    if str_contains(lower.as_str(), "mp3party.net/download/") {
        let mp3 = chars_of(".mp3");
        let mp4 = chars_of(".mp4");
        proof {
            reveal_strlit(".mp3");
            reveal_strlit(".mp4");
        }
        let a = trim_end_matches_of(seg, mp3.as_slice());
        let id = trim_end_matches_of(a, mp4.as_slice());
        if id.len() > 0 {
            DirectLink::Mp3Party(string_from_chars(id))
        } else {
            DirectLink::Plain
        }
    } else if str_contains(lower.as_str(), "pl.pesni.me") || str_contains(
        lower.as_str(),
        "dw.pesni.me",
    ) {
        let id = before_first_dot_of(seg);
        if id.len() > 0 {
            DirectLink::PesniMe(string_from_chars(id))
        } else {
            DirectLink::Plain
        }
    } else {
        DirectLink::Plain
    }
}

/// The track a direct link becomes: the looked-up track with the link as its URL, or
/// a track titled by the link's file name.
pub open spec fn spec_resolve_direct(url: Seq<char>, fetched: Option<TrackModel>) -> TrackModel {
    match fetched {
        Some(t) => TrackModel { url, ..t },
        None => TrackModel {
            id: seq![],
            artist: seq![],
            title: spec_sanitize_filename(before_first_dot(last_segment(url))),
            url,
        },
    }
}

pub fn resolve_direct_link(url: &str, fetched: Option<TrackInfo>) -> (t: TrackInfo)
    ensures
        t@ == spec_resolve_direct(
            url@,
            match fetched {
                Some(f) => Some(f@),
                None => None,
            },
        ),
{
    match fetched {
        Some(f) => TrackInfo { id: f.id, artist: f.artist, title: f.title, url: owned(url) },
        None => {
            let cs = chars_of(url);
            let seg = last_segment_of(cs.as_slice());
            let raw = before_first_dot_of(seg);
            let raw_s = string_from_chars(raw);
            TrackInfo {
                id: String::new(),
                artist: String::new(),
                title: sanitize_filename(raw_s.as_str()),
                url: owned(url),
            }
        },
    }
}

} // verus!
