//! Texts the window shows: labels, status lines, the results table copied as text,
//! and the playlist entries made from results.
use vstd::prelude::*;
use crate::playlist::PlaylistItem;
use crate::session::tracks_view;
use crate::sources::{
    cat, cat3, drivemusic_page_url, mp3party_stream_url, mp3party_track_page,
    spec_drivemusic_page_url, spec_mp3party_stream_url, spec_mp3party_track_page,
};
use crate::tasks::DownloadTask;
use crate::text::{decimal, decimal_pad2, decimal_pad2_string, decimal_string, owned, starts_with, str_starts_with};
use crate::types::{
    spec_source_label, DownloadSource, OutputMode, TrackInfo, TrackModel, YtDlpFormat,
};

verus! {

broadcast use vstd::string::group_string_axioms;

/// `m:ss` for a position or duration of `secs` seconds.
pub open spec fn spec_clock(secs: nat) -> Seq<char> {
    decimal(secs / 60) + ":"@ + decimal_pad2(secs % 60)
}

pub fn format_clock(secs: u64) -> (s: String)
    ensures
        s@ == spec_clock(secs as nat),
{
    let mut s = decimal_string(secs / 60);
    s.append(":");
    s.append(decimal_pad2_string(secs % 60).as_str());
    s
}

// ---------------------------------------------------------------- results

pub open spec fn tsv_row(t: TrackModel) -> Seq<char> {
    t.id + "\t"@ + t.artist + "\t"@ + t.title + "\t"@ + t.url + "\n"@
}

pub open spec fn tsv_rows(ts: Seq<TrackModel>) -> Seq<char>
    decreases ts.len(),
{
    if ts.len() == 0 {
        seq![]
    } else {
        tsv_rows(ts.drop_last()) + tsv_row(ts.last())
    }
}

/// The results as tab-separated text: a header line, then one line per track.
pub open spec fn spec_tracks_tsv(ts: Seq<TrackModel>) -> Seq<char> {
    "ID\tИсполнитель\tНазвание\tСсылка\n"@ + tsv_rows(ts)
}

pub fn tracks_tsv(tracks: &Vec<TrackInfo>) -> (s: String)
    ensures
        s@ == spec_tracks_tsv(tracks_view(tracks@)),
{
    let ghost tv = tracks_view(tracks@);
    let mut s = owned("ID\tИсполнитель\tНазвание\tСсылка\n");
    let mut i: usize = 0;
    while i < tracks.len()
        invariant
            tv == tracks_view(tracks@),
            i <= tracks@.len(),
            s@ == "ID\tИсполнитель\tНазвание\tСсылка\n"@ + tsv_rows(tv.take(i as int)),
        decreases tracks@.len() - i,
    {
        let t = &tracks[i];
        s.append(t.id.as_str());
        s.append("\t");
        s.append(t.artist.as_str());
        s.append("\t");
        s.append(t.title.as_str());
        s.append("\t");
        s.append(t.url.as_str());
        s.append("\n");
        assert(tv.take(i + 1).drop_last() =~= tv.take(i as int));
        assert(tv.take(i + 1).last() == t@);
        i = i + 1;
    }
    assert(tv.take(tracks@.len() as int) =~= tv);
    s
}

/// Heading of the results table.
pub open spec fn spec_results_title(mode: OutputMode, source: DownloadSource, n: nat) -> Seq<char> {
    "📊 Результаты ("@ + (match mode {
        OutputMode::UrlParsing => "по ссылкам"@,
        OutputMode::Search => "поиск — "@ + spec_source_label(source),
    }) + ") — "@ + decimal(n) + " треков"@
}

pub fn results_title(mode: OutputMode, source: DownloadSource, n: usize) -> (s: String)
    ensures
        s@ == spec_results_title(mode, source, n as nat),
{
    let mut s = owned("📊 Результаты (");
    match mode {
        OutputMode::UrlParsing => s.append("по ссылкам"),
        OutputMode::Search => {
            s.append("поиск — ");
            s.append(source.label());
        },
    }
    s.append(") — ");
    s.append(decimal_string(n as u64).as_str());
    s.append(" треков");
    s
}

/// `artist — title`.
pub open spec fn spec_track_caption(t: TrackModel) -> Seq<char> {
    t.artist + " — "@ + t.title
}

pub fn track_caption(t: &TrackInfo) -> (s: String)
    ensures
        s@ == spec_track_caption(t@),
{
    cat3(t.artist.as_str(), " — ", t.title.as_str())
}

/// Subtitle of a stream from `source`.
pub open spec fn spec_stream_subtitle(source: DownloadSource) -> Seq<char> {
    "Стрим "@ + spec_source_label(source)
}

pub fn stream_subtitle(source: DownloadSource) -> (s: String)
    ensures
        s@ == spec_stream_subtitle(source),
{
    cat("Стрим ", source.label())
}

/// The playlist entry for a result streamed from `source`.
pub fn stream_playlist_item(track: &TrackInfo, source: DownloadSource) -> (r: PlaylistItem)
    ensures
        r.path_or_url@ == track.url@,
        r.title@ == spec_track_caption(track@),
        r.subtitle@ == spec_stream_subtitle(source),
        !r.is_video,
        r.is_url,
{
    PlaylistItem {
        path_or_url: track.url.clone(),
        title: track_caption(track),
        subtitle: stream_subtitle(source),
        is_video: false,
        is_url: true,
    }
}

/// What an MP3Party track is streamed from: its own `http` URL, else the site's
/// online URL.
pub open spec fn spec_mp3party_stream_target(t: TrackModel) -> Seq<char> {
    if starts_with(t.url, "http"@) {
        t.url
    } else {
        spec_mp3party_stream_url(t.id)
    }
}

pub fn mp3party_stream_target(t: &TrackInfo) -> (s: String)
    ensures
        s@ == spec_mp3party_stream_target(t@),
{
    if str_starts_with(t.url.as_str(), "http") {
        t.url.clone()
    } else {
        mp3party_stream_url(t.id.as_str())
    }
}

/// A stream is shown as video for yt-dlp in MP4.
pub fn stream_is_video(source: DownloadSource, fmt: YtDlpFormat) -> (b: bool)
    ensures
        b == (source == DownloadSource::YtDlp && fmt == YtDlpFormat::Mp4),
{
    source == DownloadSource::YtDlp && fmt == YtDlpFormat::Mp4
}

// ---------------------------------------------------------------- downloads

/// Line heading a download in the downloads list: `[source] artist — title`.
pub open spec fn spec_task_line(t: DownloadTask) -> Seq<char> {
    "["@ + crate::session::spec_task_source_label(t.source, t.ytdlp_format) + "] "@
        + spec_track_caption(t.track@)
}

pub fn task_line(t: &DownloadTask) -> (s: String)
    ensures
        s@ == spec_task_line(*t),
{
    let mut s = cat3("[", crate::session::task_source_label(t.source, t.ytdlp_format), "] ");
    s.append(track_caption(&t.track).as_str());
    s
}

/// Page a failed download can be retried from in the browser: the MP3Party track page,
/// or the DriveMusic page when the track has one.
pub open spec fn spec_failed_task_page(source: DownloadSource, t: TrackModel) -> Option<Seq<char>> {
    match source {
        DownloadSource::Mp3Party => Some(spec_mp3party_track_page(t.id)),
        DownloadSource::DriveMusic => match spec_drivemusic_page_url(t.url) {
            Ok(p) => Some(p),
            Err(_) => None,
        },
        _ => None,
    }
}

pub fn failed_task_page(source: DownloadSource, track: &TrackInfo) -> (r: Option<String>)
    ensures
        crate::text::opt_string_view(r) == spec_failed_task_page(source, track@),
{
    match source {
        DownloadSource::Mp3Party => Some(mp3party_track_page(track.id.as_str())),
        DownloadSource::DriveMusic => match drivemusic_page_url(track) {
            Ok(p) => Some(p),
            Err(_) => None,
        },
        _ => None,
    }
}

/// Label of the downloads button: with the number of transfers running, if any.
pub open spec fn spec_downloads_button(active: nat) -> Seq<char> {
    if active > 0 {
        "📥 Загрузки ("@ + decimal(active) + ")"@
    } else {
        "📥 Загрузки"@
    }
}

pub fn downloads_button_label(active: usize) -> (s: String)
    ensures
        s@ == spec_downloads_button(active as nat),
{
    if active > 0 {
        cat3("📥 Загрузки (", decimal_string(active as u64).as_str(), ")")
    } else {
        owned("📥 Загрузки")
    }
}

/// Label of the log button: with the number of lines, if any.
pub open spec fn spec_logs_button(n: nat) -> Seq<char> {
    if n == 0 {
        "📋 Логи"@
    } else {
        "📋 Логи ("@ + decimal(n) + ")"@
    }
}

pub fn logs_button_label(n: usize) -> (s: String)
    ensures
        s@ == spec_logs_button(n as nat),
{
    if n == 0 {
        owned("📋 Логи")
    } else {
        cat3("📋 Логи (", decimal_string(n as u64).as_str(), ")")
    }
}

// ---------------------------------------------------------------- player bar

/// Position shown after the playing title when the playlist has several items:
/// `  [k/n]`, counting from 1.
pub open spec fn spec_playlist_position(index: nat, len: nat) -> Seq<char> {
    if len > 1 {
        "  ["@ + decimal(index + 1) + "/"@ + decimal(len) + "]"@
    } else {
        seq![]
    }
}

pub fn playlist_position_label(index: usize, len: usize) -> (s: String)
    requires
        index < usize::MAX,
    ensures
        s@ == spec_playlist_position(index as nat, len as nat),
{
    if len > 1 {
        let mut s = cat3("  [", decimal_string((index + 1) as u64).as_str(), "/");
        s.append(decimal_string(len as u64).as_str());
        s.append("]");
        s
    } else {
        proof {
            reveal_strlit("");
        }
        owned("")
    }
}

/// Label of the playlist button: with the number of items when there are several.
pub open spec fn spec_playlist_button(len: nat) -> Seq<char> {
    if len > 1 {
        "📋 ("@ + decimal(len) + ")"@
    } else {
        "📋"@
    }
}

pub fn playlist_button_label(len: usize) -> (s: String)
    ensures
        s@ == spec_playlist_button(len as nat),
{
    if len > 1 {
        cat3("📋 (", decimal_string(len as u64).as_str(), ")")
    } else {
        owned("📋")
    }
}

// ---------------------------------------------------------------- job status lines

pub open spec fn spec_search_status(source: DownloadSource, q: Seq<char>) -> Seq<char> {
    "⏳ Поиск ["@ + spec_source_label(source) + "] «"@ + q + "»..."@
}

/// Status line while searching `query` on `source`.
pub fn search_status(source: DownloadSource, query: &str) -> (s: String)
    ensures
        s@ == spec_search_status(source, query@),
{
    let mut s = cat3("⏳ Поиск [", source.label(), "] «");
    s.append(query);
    s.append("»...");
    s
}

pub open spec fn spec_batch_status(source: DownloadSource, n: nat) -> Seq<char> {
    "⏳ Пакетный поиск ["@ + spec_source_label(source) + "]: "@ + decimal(n) + " запрос(ов)…"@
}

/// Status line while a list of `n` queries is searched on `source`.
pub fn batch_status(source: DownloadSource, n: usize) -> (s: String)
    ensures
        s@ == spec_batch_status(source, n as nat),
{
    let mut s = cat3("⏳ Пакетный поиск [", source.label(), "]: ");
    s.append(decimal_string(n as u64).as_str());
    s.append(" запрос(ов)…");
    s
}

pub open spec fn spec_import_status(n: nat) -> Seq<char> {
    "⏳ Импорт "@ + decimal(n) + " ссылок..."@
}

/// Status line while `n` links are imported.
pub fn import_status(n: usize) -> (s: String)
    ensures
        s@ == spec_import_status(n as nat),
{
    cat3("⏳ Импорт ", decimal_string(n as u64).as_str(), " ссылок...")
}

// ---------------------------------------------------------------- status line

/// How the status line is coloured.
#[derive(Clone, Copy, Debug, PartialEq, Eq, Structural)]
pub enum StatusTone {
    /// A job is running.
    Busy,
    Success,
    Error,
    Neutral,
}

pub open spec fn spec_status_tone(status: Seq<char>, loading: bool) -> StatusTone {
    if loading {
        StatusTone::Busy
    } else if starts_with(status, "✅"@) || starts_with(status, "📋"@) {
        StatusTone::Success
    } else if starts_with(status, "❌"@) || starts_with(status, "⚠"@) {
        StatusTone::Error
    } else {
        StatusTone::Neutral
    }
}

/// Tone of the status line: busy while loading, else by its leading sign.
pub fn status_tone(status: &str, loading: bool) -> (t: StatusTone)
    ensures
        t == spec_status_tone(status@, loading),
{
    if loading {
        StatusTone::Busy
    } else if str_starts_with(status, "✅") || str_starts_with(status, "📋") {
        StatusTone::Success
    } else if str_starts_with(status, "❌") || str_starts_with(status, "⚠") {
        StatusTone::Error
    } else {
        StatusTone::Neutral
    }
}

} // verus!
